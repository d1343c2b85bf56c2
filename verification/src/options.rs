//! Configuration types for one generation command: the password shape, the
//! number of passwords, and whether and how they are exported to a file.

use crate::text::{
    all_digits, chars_eq_str, digit_val, digits_val, filter_nonempty, is_digit,
    lemma_digits_val_prefix, lemma_split_on_concat, lemma_split_on_free, lemma_split_on_join,
    split_chars, split_on, str_chars,
};
use vstd::prelude::*;

verus! {

/// The shape of a generated password: its length and the character classes
/// drawn from. Lowercase letters are always included and cannot be disabled.
#[derive(Clone, Copy, Debug, PartialEq, Eq, Structural)]
pub struct Password {
    pub size: usize,
    pub use_numbers: bool,
    pub use_uppercase: bool,
    pub use_special_caracters: bool,
}

impl Default for Password {
    /// The default shape: 15 characters, every character class enabled.
    fn default() -> (r: Self)
        ensures
            r == (Password {
                size: 15,
                use_numbers: true,
                use_uppercase: true,
                use_special_caracters: true,
            }),
    {
        Password { size: 15, use_numbers: true, use_uppercase: true, use_special_caracters: true }
    }
}

/// The two on-disk formats for a bulk export.
#[derive(Clone, Copy, Debug, PartialEq, Eq, Structural)]
pub enum FileFormat {
    Txt,
    Csv,
}

/// One full generation command: the password shape, how many passwords,
/// and whether and how they are exported.
#[derive(Clone, Copy, Debug, PartialEq, Eq, Structural)]
pub struct GenerationRequest {
    pub password: Password,
    pub count: i32,
    pub save_in_file: bool,
    pub file_format: FileFormat,
}

/// A recognized option key whose value could not be converted.
#[derive(Clone, Copy, Debug, PartialEq, Eq, Structural)]
pub enum ParseError {
    /// The value of a count or size option is not an integer in range.
    InvalidInt,
    /// The value of a character-class option is neither `true` nor `false`.
    InvalidBool,
}

/// The request that an empty command line yields: one password of the
/// default shape, printed to the console.
pub open spec fn default_request() -> GenerationRequest {
    GenerationRequest {
        password: Password {
            size: 15,
            use_numbers: true,
            use_uppercase: true,
            use_special_caracters: true,
        },
        count: 1,
        save_in_file: false,
        file_format: FileFormat::Csv,
    }
}

impl Default for GenerationRequest {
    fn default() -> (r: Self)
        ensures
            r == default_request(),
    {
        GenerationRequest {
            password: Password {
                size: 15,
                use_numbers: true,
                use_uppercase: true,
                use_special_caracters: true,
            },
            count: 1,
            save_in_file: false,
            file_format: FileFormat::Csv,
        }
    }
}

/// The whitespace-separated tokens of a command line, empties discarded.
pub open spec fn tokens(s: Seq<char>) -> Seq<Seq<char>> {
    split_on(s, ' ').filter(|t: Seq<char>| t.len() > 0)
}

/// The key of a token: everything before its first `=`.
pub open spec fn token_key(t: Seq<char>) -> Seq<char> {
    split_on(t, '=')[0]
}

/// The value of a token: everything after its first `=`, or the empty
/// string when the token has no `=`.
pub open spec fn token_value(t: Seq<char>) -> Seq<char> {
    if t.contains('=') {
        t.skip(token_key(t).len() as int + 1)
    } else {
        Seq::<char>::empty()
    }
}

/// The digits of an integer token, after an optional leading sign.
pub open spec fn sign_digits(s: Seq<char>) -> Seq<char> {
    if s.len() > 0 && (s[0] == '+' || s[0] == '-') {
        s.skip(1)
    } else {
        s
    }
}

pub open spec fn is_neg(s: Seq<char>) -> bool {
    s.len() > 0 && s[0] == '-'
}

/// Whether `s` is an optionally signed string of decimal digits.
pub open spec fn is_int_token(s: Seq<char>) -> bool {
    sign_digits(s).len() > 0 && all_digits(sign_digits(s))
}

/// The mathematical value of an integer token.
pub open spec fn int_token_val(s: Seq<char>) -> int {
    if is_neg(s) {
        -(digits_val(sign_digits(s)) as int)
    } else {
        digits_val(sign_digits(s)) as int
    }
}

/// What `value.parse::<i32>()` yields: the value when `s` is a signed
/// decimal integer in range, `None` otherwise.
pub open spec fn spec_parse_i32(s: Seq<char>) -> Option<i32> {
    if is_int_token(s) && i32::MIN <= int_token_val(s) <= i32::MAX {
        Some(int_token_val(s) as i32)
    } else {
        None
    }
}

/// The digits of an unsigned integer token, after an optional leading `+`.
pub open spec fn uns_digits(s: Seq<char>) -> Seq<char> {
    if s.len() > 0 && s[0] == '+' {
        s.skip(1)
    } else {
        s
    }
}

/// What `value.parse::<usize>()` yields.
pub open spec fn spec_parse_usize(s: Seq<char>) -> Option<usize> {
    if uns_digits(s).len() > 0 && all_digits(uns_digits(s)) && digits_val(uns_digits(s))
        <= usize::MAX {
        Some(digits_val(uns_digits(s)) as usize)
    } else {
        None
    }
}

/// What `value.parse::<bool>()` yields: only the exact words `true` and
/// `false` are accepted.
pub open spec fn spec_parse_bool(s: Seq<char>) -> Option<bool> {
    if s == "true"@ {
        Some(true)
    } else if s == "false"@ {
        Some(false)
    } else {
        None
    }
}

/// The effect of one token on the request built so far. Unrecognized keys
/// are ignored; a recognized key with a malformed value fails the parse.
pub open spec fn apply_token(r: GenerationRequest, t: Seq<char>) -> Result<
    GenerationRequest,
    ParseError,
> {
    let key = token_key(t);
    let value = token_value(t);
    if key == "file"@ || key == "f"@ {
        Ok(GenerationRequest {
            save_in_file: true,
            file_format: if value == "txt"@ {
                FileFormat::Txt
            } else {
                FileFormat::Csv
            },
            ..r
        })
    } else if key == "number_of_passwords"@ || key == "nop"@ || key == "n"@ {
        match spec_parse_i32(value) {
            Some(n) => Ok(GenerationRequest { count: n, ..r }),
            None => Err(ParseError::InvalidInt),
        }
    } else if key == "size"@ || key == "s"@ || key == "sz"@ {
        match spec_parse_usize(value) {
            Some(v) => Ok(GenerationRequest { password: Password { size: v, ..r.password }, ..r }),
            None => Err(ParseError::InvalidInt),
        }
    } else if key == "!use_numbers"@ || key == "!n"@ || key == "!num"@ {
        Ok(GenerationRequest { password: Password { use_numbers: false, ..r.password }, ..r })
    } else if key == "use_numbers"@ || key == "un"@ || key == "num"@ {
        match spec_parse_bool(value) {
            Some(b) => Ok(
                GenerationRequest { password: Password { use_numbers: b, ..r.password }, ..r },
            ),
            None => Err(ParseError::InvalidBool),
        }
    } else if key == "!use_uppercase"@ || key == "!up"@ || key == "!u"@ {
        Ok(GenerationRequest { password: Password { use_uppercase: false, ..r.password }, ..r })
    } else if key == "use_uppercase"@ || key == "up"@ || key == "u"@ {
        match spec_parse_bool(value) {
            Some(b) => Ok(
                GenerationRequest { password: Password { use_uppercase: b, ..r.password }, ..r },
            ),
            None => Err(ParseError::InvalidBool),
        }
    } else if key == "!use_special_caracters"@ || key == "!sc"@ || key == "!c"@ {
        Ok(
            GenerationRequest {
                password: Password { use_special_caracters: false, ..r.password },
                ..r
            },
        )
    } else if key == "use_special_caracters"@ || key == "sc"@ || key == "c"@ {
        match spec_parse_bool(value) {
            Some(b) => Ok(
                GenerationRequest {
                    password: Password { use_special_caracters: b, ..r.password },
                    ..r
                },
            ),
            None => Err(ParseError::InvalidBool),
        }
    } else {
        Ok(r)
    }
}

/// The tokens applied left to right; the first malformed value aborts.
pub open spec fn apply_tokens(r: GenerationRequest, ts: Seq<Seq<char>>) -> Result<
    GenerationRequest,
    ParseError,
> decreases ts.len() {
    if ts.len() == 0 {
        Ok(r)
    } else {
        match apply_token(r, ts[0]) {
            Ok(r2) => apply_tokens(r2, ts.skip(1)),
            Err(e) => Err(e),
        }
    }
}

/// More than 25 passwords are always exported to a file, whether or not
/// the command line asked for one.
pub open spec fn force_export(r: GenerationRequest) -> GenerationRequest {
    if r.count > 25 {
        GenerationRequest { save_in_file: true, ..r }
    } else {
        r
    }
}

/// The meaning of a whole command line.
pub open spec fn spec_parse(s: Seq<char>) -> Result<GenerationRequest, ParseError> {
    match apply_tokens(default_request(), tokens(s)) {
        Ok(r) => Ok(force_export(r)),
        Err(e) => Err(e),
    }
}

/// The option that a token's key selects. All keys of one option set the
/// same fields of the request, so a later token of the same option
/// overwrites an earlier one.
#[derive(Clone, Copy, Debug, PartialEq, Eq, Structural)]
pub enum OptionKind {
    File,
    Count,
    Size,
    Numbers,
    Uppercase,
    Special,
    Unknown,
}

pub open spec fn key_kind(key: Seq<char>) -> OptionKind {
    if key == "file"@ || key == "f"@ {
        OptionKind::File
    } else if key == "number_of_passwords"@ || key == "nop"@ || key == "n"@ {
        OptionKind::Count
    } else if key == "size"@ || key == "s"@ || key == "sz"@ {
        OptionKind::Size
    } else if key == "!use_numbers"@ || key == "!n"@ || key == "!num"@ || key == "use_numbers"@
        || key == "un"@ || key == "num"@ {
        OptionKind::Numbers
    } else if key == "!use_uppercase"@ || key == "!up"@ || key == "!u"@ || key == "use_uppercase"@
        || key == "up"@ || key == "u"@ {
        OptionKind::Uppercase
    } else if key == "!use_special_caracters"@ || key == "!sc"@ || key == "!c"@ || key
        == "use_special_caracters"@ || key == "sc"@ || key == "c"@ {
        OptionKind::Special
    } else {
        OptionKind::Unknown
    }
}

/// Whether a token parses. This depends on the token alone, never on the
/// request built so far.
pub open spec fn token_ok(t: Seq<char>) -> bool {
    apply_token(default_request(), t) is Ok
}

proof fn lemma_token_ok_any(r: GenerationRequest, t: Seq<char>)
    requires
        token_ok(t),
    ensures
        apply_token(r, t) is Ok,
{
}

/// A later token of the same option overwrites an earlier successful one:
/// applying the second after the first ends exactly as applying the second
/// alone.
proof fn lemma_token_overwrites(r: GenerationRequest, t1: Seq<char>, t2: Seq<char>)
    requires
        key_kind(token_key(t1)) == key_kind(token_key(t2)),
        apply_token(r, t1) is Ok,
    ensures
        apply_token(apply_token(r, t1).unwrap(), t2) == apply_token(r, t2),
{
}

/// Tokens apply one after the other: a split of the token list folds as
/// the first part, then the second from where the first ended.
proof fn lemma_apply_tokens_append(r: GenerationRequest, a: Seq<Seq<char>>, b: Seq<Seq<char>>)
    ensures
        apply_tokens(r, a + b) == (match apply_tokens(r, a) {
            Ok(r2) => apply_tokens(r2, b),
            Err(e) => Err(e),
        }),
    decreases a.len(),
{
    if a.len() == 0 {
        assert(a + b =~~= b);
    } else {
        assert((a + b)[0] == a[0]);
        assert((a + b).skip(1) =~~= a.skip(1) + b);
        match apply_token(r, a[0]) {
            Ok(r2) => {
                lemma_apply_tokens_append(r2, a.skip(1), b);
            },
            Err(_) => {},
        }
    }
}

/// Law: option parsing is idempotent on repeated identical tokens — a
/// token given twice in a row leaves exactly the state the single token
/// leaves.
pub proof fn lemma_parse_idempotent(
    r: GenerationRequest,
    ts1: Seq<Seq<char>>,
    t: Seq<char>,
    ts2: Seq<Seq<char>>,
)
    ensures
        apply_tokens(r, ts1 + seq![t, t] + ts2) == apply_tokens(r, ts1 + seq![t] + ts2),
{
    reveal_with_fuel(apply_tokens, 4);
    assert(ts1 + seq![t, t] + ts2 =~~= ts1 + (seq![t, t] + ts2));
    assert(ts1 + seq![t] + ts2 =~~= ts1 + (seq![t] + ts2));
    lemma_apply_tokens_append(r, ts1, seq![t, t] + ts2);
    lemma_apply_tokens_append(r, ts1, seq![t] + ts2);
    match apply_tokens(r, ts1) {
        Ok(r1) => {
            assert((seq![t, t] + ts2)[0] == t);
            assert((seq![t, t] + ts2).skip(1) =~~= seq![t] + ts2);
            assert((seq![t] + ts2)[0] == t);
            assert((seq![t] + ts2).skip(1) =~~= ts2);
            match apply_token(r1, t) {
                Ok(r2) => {
                    lemma_token_overwrites(r1, t, t);
                },
                Err(_) => {},
            }
        },
        Err(_) => {},
    }
}

/// Law: of two tokens that set the same option, the later one wins — the
/// earlier token might as well not have been given.
pub proof fn lemma_last_token_wins(
    r: GenerationRequest,
    ts1: Seq<Seq<char>>,
    t1: Seq<char>,
    t2: Seq<char>,
    ts2: Seq<Seq<char>>,
)
    requires
        key_kind(token_key(t1)) == key_kind(token_key(t2)),
        token_ok(t1),
    ensures
        apply_tokens(r, ts1 + seq![t1, t2] + ts2) == apply_tokens(r, ts1 + seq![t2] + ts2),
{
    reveal_with_fuel(apply_tokens, 4);
    assert(ts1 + seq![t1, t2] + ts2 =~~= ts1 + (seq![t1, t2] + ts2));
    assert(ts1 + seq![t2] + ts2 =~~= ts1 + (seq![t2] + ts2));
    lemma_apply_tokens_append(r, ts1, seq![t1, t2] + ts2);
    lemma_apply_tokens_append(r, ts1, seq![t2] + ts2);
    match apply_tokens(r, ts1) {
        Ok(r1) => {
            lemma_token_ok_any(r1, t1);
            assert((seq![t1, t2] + ts2)[0] == t1);
            assert((seq![t1, t2] + ts2).skip(1) =~~= seq![t2] + ts2);
            assert((seq![t2] + ts2)[0] == t2);
            assert((seq![t2] + ts2).skip(1) =~~= ts2);
            lemma_token_overwrites(r1, t1, t2);
        },
        Err(_) => {},
    }
}

/// Which options a token list writes: those that some recognized key of
/// the list selects.
pub open spec fn writes(ts: Seq<Seq<char>>, k: OptionKind) -> bool
    decreases ts.len(),
{
    ts.len() > 0 && (key_kind(token_key(ts[0])) == k || writes(ts.skip(1), k))
}

/// A token list that folds without error folds without error from any
/// start: the fields of the options it writes end on the same values, and
/// the rest keep the start's values.
proof fn lemma_apply_tokens_fields(r: GenerationRequest, r2: GenerationRequest, ts: Seq<Seq<char>>)
    requires
        apply_tokens(r, ts) is Ok,
    ensures
        apply_tokens(r2, ts) is Ok,
        ({
            let v = apply_tokens(r, ts)->Ok_0;
            let w = apply_tokens(r2, ts)->Ok_0;
            &&& w.count == (if writes(ts, OptionKind::Count) {
                v.count
            } else {
                r2.count
            })
            &&& w.save_in_file == (if writes(ts, OptionKind::File) {
                v.save_in_file
            } else {
                r2.save_in_file
            })
            &&& w.file_format == (if writes(ts, OptionKind::File) {
                v.file_format
            } else {
                r2.file_format
            })
            &&& w.password.size == (if writes(ts, OptionKind::Size) {
                v.password.size
            } else {
                r2.password.size
            })
            &&& w.password.use_numbers == (if writes(ts, OptionKind::Numbers) {
                v.password.use_numbers
            } else {
                r2.password.use_numbers
            })
            &&& w.password.use_uppercase == (if writes(ts, OptionKind::Uppercase) {
                v.password.use_uppercase
            } else {
                r2.password.use_uppercase
            })
            &&& w.password.use_special_caracters == (if writes(ts, OptionKind::Special) {
                v.password.use_special_caracters
            } else {
                r2.password.use_special_caracters
            })
        }),
    decreases ts.len(),
{
    if ts.len() > 0 {
        let t = ts[0];
        assert(apply_token(r, t) is Ok);
        assert(apply_token(r2, t) is Ok);
        let v1 = apply_token(r, t)->Ok_0;
        let w1 = apply_token(r2, t)->Ok_0;
        let k0 = key_kind(token_key(t));
        assert(w1.count == (if k0 == OptionKind::Count {
            v1.count
        } else {
            r2.count
        }));
        assert(w1.save_in_file == (if k0 == OptionKind::File {
            v1.save_in_file
        } else {
            r2.save_in_file
        }));
        assert(w1.file_format == (if k0 == OptionKind::File {
            v1.file_format
        } else {
            r2.file_format
        }));
        assert(w1.password.size == (if k0 == OptionKind::Size {
            v1.password.size
        } else {
            r2.password.size
        }));
        assert(w1.password.use_numbers == (if k0 == OptionKind::Numbers {
            v1.password.use_numbers
        } else {
            r2.password.use_numbers
        }));
        assert(w1.password.use_uppercase == (if k0 == OptionKind::Uppercase {
            v1.password.use_uppercase
        } else {
            r2.password.use_uppercase
        }));
        assert(w1.password.use_special_caracters == (if k0 == OptionKind::Special {
            v1.password.use_special_caracters
        } else {
            r2.password.use_special_caracters
        }));
        lemma_apply_tokens_fields(v1, v1, ts.skip(1));
        lemma_apply_tokens_fields(v1, w1, ts.skip(1));
    }
}

/// Law: repeating a whole command line, with a space between the copies,
/// leaves its meaning unchanged.
pub proof fn lemma_parse_line_doubled(l: Seq<char>)
    ensures
        spec_parse(l + seq![' '] + l) == spec_parse(l),
{
    broadcast use Seq::filter_distributes_over_add;

    lemma_split_on_join(l, l, ' ');
    let l2 = l + seq![' '] + l;
    let ts = tokens(l);
    assert(split_on(l2, ' ') == split_on(l, ' ') + split_on(l, ' '));
    assert(tokens(l2) == ts + ts);
    lemma_apply_tokens_append(default_request(), ts, ts);
    if apply_tokens(default_request(), ts) is Ok {
        let r1 = apply_tokens(default_request(), ts)->Ok_0;
        lemma_apply_tokens_fields(default_request(), r1, ts);
        let w = apply_tokens(r1, ts)->Ok_0;
        assert(w.password == r1.password);
        assert(w == r1);
    }
}

/// Law: a parsed command for more than 25 passwords always exports to a
/// file, whether or not a file was asked for.
pub proof fn lemma_count_forces_export(s: Seq<char>)
    ensures
        spec_parse(s) matches Ok(r) ==> (r.count > 25 ==> r.save_in_file),
{
}

/// The first position of `c` in `t` at or after `from`, or `t.len()`.
fn find_char(t: &Vec<char>, from: usize, c: char) -> (p: usize)
    requires
        from <= t@.len(),
    ensures
        from <= p <= t@.len(),
        forall|j: int| from <= j < p ==> t@[j] != c,
        p < t@.len() ==> t@[p as int] == c,
{
    let mut p = from;
    while p < t.len()
        invariant
            from <= p <= t@.len(),
            forall|j: int| from <= j < p ==> t@[j] != c,
        ensures
            from <= p <= t@.len(),
            forall|j: int| from <= j < p ==> t@[j] != c,
            p < t@.len() ==> t@[p as int] == c,
        decreases t@.len() - p,
    {
        if t[p] == c {
            break ;
        }
        p = p + 1;
    }
    p
}

/// The characters of `t` from `a` (inclusive) to `b` (exclusive).
fn vec_range(t: &Vec<char>, a: usize, b: usize) -> (r: Vec<char>)
    requires
        a <= b <= t@.len(),
    ensures
        r@ == t@.subrange(a as int, b as int),
{
    let mut r: Vec<char> = Vec::new();
    let mut i = a;
    while i < b
        invariant
            a <= i <= b <= t@.len(),
            r@ == t@.subrange(a as int, i as int),
        decreases b - i,
    {
        r.push(t[i]);
        i = i + 1;
        assert(r@ =~= t@.subrange(a as int, i as int));
    }
    r
}

/// The mirror of `value.parse::<i32>()` on a character vector.
fn parse_i32_chars(v: &Vec<char>) -> (r: Option<i32>)
    ensures
        r == spec_parse_i32(v@),
{
    let ghost s = v@;
    let mut start: usize = 0;
    let mut neg = false;
    if v.len() > 0 {
        let c0 = v[0];
        if c0 == '+' || c0 == '-' {
            start = 1;
            neg = c0 == '-';
        }
    }
    let ghost d = sign_digits(s);
    proof {
        if start == 1 {
            assert(d =~= s.skip(1));
        } else {
            assert(d =~= s);
        }
    }
    if start == v.len() {
        return None;
    }
    let mut acc: u64 = 0;
    let mut i: usize = start;
    while i < v.len()
        invariant
            start <= i <= v@.len(),
            s == v@,
            d == sign_digits(s),
            d.len() == s.len() - start,
            forall|j: int| 0 <= j < d.len() ==> d[j] == s[j + start],
            all_digits(d.take(i - start)),
            acc == digits_val(d.take(i - start)),
            acc <= 0x8000_0000,
        decreases v@.len() - i,
    {
        let c = v[i];
        if c < '0' || c > '9' {
            proof {
                assert(d[i - start] == c);
                assert(!is_digit(c));
            }
            return None;
        }
        let dv: u64 = (c as u32 - 48) as u64;
        proof {
            assert('0' as u32 == 48);
            assert(dv == digit_val(c));
        }
        acc = acc * 10 + dv;
        i = i + 1;
        proof {
            assert(d.take(i - start).drop_last() =~= d.take(i - 1 - start));
            assert(d.take(i - start).last() == c);
        }
        if acc > 0x8000_0000 {
            proof {
                lemma_digits_val_prefix(d, i - start);
            }
            return None;
        }
    }
    proof {
        assert(d.take(i - start) =~= d);
    }
    if neg {
        if acc == 0x8000_0000 {
            Some(i32::MIN)
        } else {
            Some(0 - (acc as i32))
        }
    } else {
        if acc == 0x8000_0000 {
            None
        } else {
            Some(acc as i32)
        }
    }
}

/// The mirror of `value.parse::<usize>()` on a character vector.
fn parse_usize_chars(v: &Vec<char>) -> (r: Option<usize>)
    ensures
        r == spec_parse_usize(v@),
{
    let ghost s = v@;
    let mut start: usize = 0;
    if v.len() > 0 {
        let c0 = v[0];
        if c0 == '+' {
            start = 1;
        }
    }
    let ghost d = uns_digits(s);
    proof {
        if start == 1 {
            assert(d =~= s.skip(1));
        } else {
            assert(d =~= s);
        }
    }
    if start == v.len() {
        return None;
    }
    let mut acc: usize = 0;
    let mut i: usize = start;
    while i < v.len()
        invariant
            start <= i <= v@.len(),
            s == v@,
            d == uns_digits(s),
            d.len() == s.len() - start,
            forall|j: int| 0 <= j < d.len() ==> d[j] == s[j + start],
            all_digits(d.take(i - start)),
            acc == digits_val(d.take(i - start)),
        decreases v@.len() - i,
    {
        let c = v[i];
        if c < '0' || c > '9' {
            proof {
                assert(d[i - start] == c);
                assert(!is_digit(c));
            }
            return None;
        }
        let dv: u128 = (c as u32 - 48) as u128;
        proof {
            assert('0' as u32 == 48);
            assert(dv == digit_val(c));
        }
        let wide: u128 = acc as u128 * 10 + dv;
        proof {
            assert(d.take(i + 1 - start).drop_last() =~= d.take(i - start));
            assert(d.take(i + 1 - start).last() == c);
            assert(wide == digits_val(d.take(i + 1 - start)));
        }
        if wide > usize::MAX as u128 {
            proof {
                lemma_digits_val_prefix(d, i + 1 - start);
            }
            return None;
        }
        acc = wide as usize;
        i = i + 1;
    }
    proof {
        assert(d.take(i - start) =~= d);
    }
    Some(acc)
}

/// The mirror of `value.parse::<bool>()` on a character vector.
fn parse_bool_chars(v: &Vec<char>) -> (r: Option<bool>)
    ensures
        r == spec_parse_bool(v@),
{
    if chars_eq_str(v.as_slice(), "true") {
        Some(true)
    } else if chars_eq_str(v.as_slice(), "false") {
        Some(false)
    } else {
        None
    }
}

/// Cuts one token into its key and its value.
fn token_key_value(t: &Vec<char>) -> (kv: (Vec<char>, Vec<char>))
    ensures
        kv.0@ == token_key(t@),
        kv.1@ == token_value(t@),
{
    let p = find_char(t, 0, '=');
    let key = vec_range(t, 0, p);
    if p == t.len() {
        proof {
            lemma_split_on_free(t@, '=');
            assert(key@ =~= t@);
            assert(!t@.contains('='));
        }
        let value: Vec<char> = Vec::new();
        (key, value)
    } else {
        let ghost head = t@.subrange(0, p as int);
        let ghost tail = t@.subrange(p + 1, t@.len() as int);
        proof {
            assert(t@ =~= head + seq!['='] + tail);
            lemma_split_on_concat(head, tail, '=');
            assert(token_key(t@) == head);
            assert(t@[p as int] == '=');
            assert(t@.contains('='));
            assert(token_value(t@) == t@.skip(p + 1));
        }
        let value = vec_range(t, p + 1, t.len());
        proof {
            assert(value@ =~= t@.skip(p + 1));
        }
        (key, value)
    }
}

/// The executable counterpart of `apply_token`.
fn apply_token_exec(r: GenerationRequest, t: &Vec<char>) -> (res: Result<
    GenerationRequest,
    ParseError,
>)
    ensures
        res == apply_token(r, t@),
{
    let (key, value) = token_key_value(t);
    let k = key.as_slice();
    if chars_eq_str(k, "file") || chars_eq_str(k, "f") {
        let fmt = if chars_eq_str(value.as_slice(), "txt") {
            FileFormat::Txt
        } else {
            FileFormat::Csv
        };
        Ok(GenerationRequest { save_in_file: true, file_format: fmt, ..r })
    } else if chars_eq_str(k, "number_of_passwords") || chars_eq_str(k, "nop") || chars_eq_str(
        k,
        "n",
    ) {
        match parse_i32_chars(&value) {
            Some(n) => Ok(GenerationRequest { count: n, ..r }),
            None => Err(ParseError::InvalidInt),
        }
    } else if chars_eq_str(k, "size") || chars_eq_str(k, "s") || chars_eq_str(k, "sz") {
        match parse_usize_chars(&value) {
            Some(v) => Ok(GenerationRequest { password: Password { size: v, ..r.password }, ..r }),
            None => Err(ParseError::InvalidInt),
        }
    } else if chars_eq_str(k, "!use_numbers") || chars_eq_str(k, "!n") || chars_eq_str(k, "!num") {
        Ok(GenerationRequest { password: Password { use_numbers: false, ..r.password }, ..r })
    } else if chars_eq_str(k, "use_numbers") || chars_eq_str(k, "un") || chars_eq_str(k, "num") {
        match parse_bool_chars(&value) {
            Some(b) => Ok(
                GenerationRequest { password: Password { use_numbers: b, ..r.password }, ..r },
            ),
            None => Err(ParseError::InvalidBool),
        }
    } else if chars_eq_str(k, "!use_uppercase") || chars_eq_str(k, "!up") || chars_eq_str(
        k,
        "!u",
    ) {
        Ok(GenerationRequest { password: Password { use_uppercase: false, ..r.password }, ..r })
    } else if chars_eq_str(k, "use_uppercase") || chars_eq_str(k, "up") || chars_eq_str(k, "u") {
        match parse_bool_chars(&value) {
            Some(b) => Ok(
                GenerationRequest { password: Password { use_uppercase: b, ..r.password }, ..r },
            ),
            None => Err(ParseError::InvalidBool),
        }
    } else if chars_eq_str(k, "!use_special_caracters") || chars_eq_str(k, "!sc") || chars_eq_str(
        k,
        "!c",
    ) {
        Ok(
            GenerationRequest {
                password: Password { use_special_caracters: false, ..r.password },
                ..r
            },
        )
    } else if chars_eq_str(k, "use_special_caracters") || chars_eq_str(k, "sc") || chars_eq_str(
        k,
        "c",
    ) {
        match parse_bool_chars(&value) {
            Some(b) => Ok(
                GenerationRequest {
                    password: Password { use_special_caracters: b, ..r.password },
                    ..r
                },
            ),
            None => Err(ParseError::InvalidBool),
        }
    } else {
        Ok(r)
    }
}

/// Parses one command line of whitespace-separated `key=value` tokens into
/// a generation request. Later tokens overwrite earlier ones, unknown keys
/// are ignored, and a count above 25 forces export to a file.
pub fn parse_user_input(user_input: String) -> (r: Result<GenerationRequest, ParseError>)
    ensures
        r == spec_parse(user_input@),
{
    let chars = str_chars(user_input.as_str());
    let segs = split_chars(&chars, ' ');
    let toks = filter_nonempty(segs);
    let ghost ts = tokens(user_input@);
    proof {
        assert(toks.deep_view() == ts);
    }
    let mut req = GenerationRequest::default();
    let mut i: usize = 0;
    proof {
        assert(ts.skip(0) =~~= ts);
    }
    while i < toks.len()
        invariant
            i <= toks@.len(),
            ts == toks.deep_view(),
            ts == tokens(user_input@),
            apply_tokens(default_request(), ts) == apply_tokens(req, ts.skip(i as int)),
        decreases toks@.len() - i,
    {
        proof {
            assert(ts[i as int] == toks@[i as int].deep_view());
            assert(toks@[i as int].deep_view() =~= toks@[i as int]@);
            assert(ts.skip(i as int)[0] == ts[i as int]);
            assert(ts.skip(i as int).skip(1) =~~= ts.skip(i + 1));
        }
        match apply_token_exec(req, &toks[i]) {
            Ok(r2) => {
                req = r2;
            },
            Err(e) => {
                return Err(e);
            },
        }
        i = i + 1;
    }
    proof {
        assert(ts.skip(i as int) =~~= Seq::<Seq<char>>::empty());
    }
    if req.count > 25 {
        req.save_in_file = true;
    }
    Ok(req)
}

} // verus!
