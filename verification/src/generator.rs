//! The password generator: composes a character set from the enabled
//! classes and draws characters from it uniformly at random.

use crate::options::Password;
use rand::Rng;
use vstd::prelude::*;

verus! {

/// The ten decimal digits, in order.
pub open spec fn digit_chars() -> Seq<char> {
    seq!['0', '1', '2', '3', '4', '5', '6', '7', '8', '9']
}

/// The 26 uppercase ASCII letters, in order.
pub open spec fn uppercase_chars() -> Seq<char> {
    seq![
        'A', 'B', 'C', 'D', 'E', 'F', 'G', 'H', 'I', 'J', 'K', 'L', 'M', 'N', 'O', 'P', 'Q', 'R',
        'S', 'T', 'U', 'V', 'W', 'X', 'Y', 'Z',
    ]
}

/// The special characters offered by the generator, in order.
pub open spec fn special_chars() -> Seq<char> {
    seq!['!', '@', '#', '$', '%', '^', '&', '*', '(', ')', '_', '+']
}

/// The 26 lowercase ASCII letters, in order.
pub open spec fn lowercase_chars() -> Seq<char> {
    seq![
        'a', 'b', 'c', 'd', 'e', 'f', 'g', 'h', 'i', 'j', 'k', 'l', 'm', 'n', 'o', 'p', 'q', 'r',
        's', 't', 'u', 'v', 'w', 'x', 'y', 'z',
    ]
}

/// The character set a password is drawn from: digits, uppercase letters
/// and specials when enabled, in that fixed order, then always the
/// lowercase letters.
pub open spec fn spec_charset(p: Password) -> Seq<char> {
    (if p.use_numbers {
        digit_chars()
    } else {
        Seq::<char>::empty()
    }) + (if p.use_uppercase {
        uppercase_chars()
    } else {
        Seq::<char>::empty()
    }) + (if p.use_special_caracters {
        special_chars()
    } else {
        Seq::<char>::empty()
    }) + lowercase_chars()
}

fn push_digits(v: &mut Vec<char>)
    ensures
        final(v)@ == old(v)@ + digit_chars(),
{
    v.push('0');
    v.push('1');
    v.push('2');
    v.push('3');
    v.push('4');
    v.push('5');
    v.push('6');
    v.push('7');
    v.push('8');
    v.push('9');
    assert(v@ =~= old(v)@ + digit_chars());
}

fn push_uppercase(v: &mut Vec<char>)
    ensures
        final(v)@ == old(v)@ + uppercase_chars(),
{
    v.push('A');
    v.push('B');
    v.push('C');
    v.push('D');
    v.push('E');
    v.push('F');
    v.push('G');
    v.push('H');
    v.push('I');
    v.push('J');
    v.push('K');
    v.push('L');
    v.push('M');
    v.push('N');
    v.push('O');
    v.push('P');
    v.push('Q');
    v.push('R');
    v.push('S');
    v.push('T');
    v.push('U');
    v.push('V');
    v.push('W');
    v.push('X');
    v.push('Y');
    v.push('Z');
    assert(v@ =~= old(v)@ + uppercase_chars());
}

fn push_specials(v: &mut Vec<char>)
    ensures
        final(v)@ == old(v)@ + special_chars(),
{
    v.push('!');
    v.push('@');
    v.push('#');
    v.push('$');
    v.push('%');
    v.push('^');
    v.push('&');
    v.push('*');
    v.push('(');
    v.push(')');
    v.push('_');
    v.push('+');
    assert(v@ =~= old(v)@ + special_chars());
}

fn push_lowercase(v: &mut Vec<char>)
    ensures
        final(v)@ == old(v)@ + lowercase_chars(),
{
    v.push('a');
    v.push('b');
    v.push('c');
    v.push('d');
    v.push('e');
    v.push('f');
    v.push('g');
    v.push('h');
    v.push('i');
    v.push('j');
    v.push('k');
    v.push('l');
    v.push('m');
    v.push('n');
    v.push('o');
    v.push('p');
    v.push('q');
    v.push('r');
    v.push('s');
    v.push('t');
    v.push('u');
    v.push('v');
    v.push('w');
    v.push('x');
    v.push('y');
    v.push('z');
    assert(v@ =~= old(v)@ + lowercase_chars());
}

/// Builds the character set that `spec_charset` describes.
pub fn build_charset(p: &Password) -> (v: Vec<char>)
    ensures
        v@ == spec_charset(*p),
        v@.len() >= 26,
{
    let mut v: Vec<char> = Vec::new();
    if p.use_numbers {
        push_digits(&mut v);
    }
    if p.use_uppercase {
        push_uppercase(&mut v);
    }
    if p.use_special_caracters {
        push_specials(&mut v);
    }
    push_lowercase(&mut v);
    assert(v@ =~= spec_charset(*p));
    v
}

#[verifier::external_type_specification]
#[verifier::external_body]
pub struct ExThreadRng(rand::rngs::ThreadRng);

/// Relies on rand::thread_rng: a handle to the thread-local random number
/// generator. Nothing is promised of the values it will produce.
#[verifier::external_body]
fn new_rng() -> rand::rngs::ThreadRng {
    rand::thread_rng()
}

/// Relies on rand::Rng::gen_range over `0..bound`: a uniformly random
/// value below `bound`. The call panics on an empty range, so a positive
/// bound is required.
#[verifier::external_body]
fn gen_index(rng: &mut rand::rngs::ThreadRng, bound: usize) -> (r: usize)
    requires
        bound > 0,
    ensures
        r < bound,
{
    rng.gen_range(0..bound)
}

/// Relies on String::push: appends exactly the given character.
#[verifier::external_body]
pub fn push_char(s: &mut String, c: char)
    ensures
        final(s)@ == old(s)@.push(c),
{
    s.push(c);
}

/// The generator's error channel. The character set always holds the
/// lowercase letters, so generation never actually fails.
#[derive(Clone, Copy, Debug, PartialEq, Eq, Structural)]
pub struct GenerationError;

impl Password {
    /// Generates one password: `size` characters drawn independently and
    /// uniformly at random from the composed character set.
    pub fn generate(password: &Self) -> (r: Result<String, GenerationError>)
        ensures
            r is Ok,
            r matches Ok(pw) ==> pw@.len() == password.size && forall|i: int|
                0 <= i < pw@.len() ==> spec_charset(*password).contains(#[trigger] pw@[i]),
    {
        let charset = build_charset(password);
        let mut rng = new_rng();
        let mut pw = String::new();
        let mut k: usize = 0;
        while k < password.size
            invariant
                k <= password.size,
                pw@.len() == k,
                charset@ == spec_charset(*password),
                charset@.len() >= 26,
                forall|i: int| 0 <= i < pw@.len() ==> spec_charset(*password).contains(
                    #[trigger] pw@[i],
                ),
            decreases password.size - k,
        {
            let idx = gen_index(&mut rng, charset.len());
            let c = charset[idx];
            assert(spec_charset(*password).contains(c));
            push_char(&mut pw, c);
            k = k + 1;
        }
        Ok(pw)
    }
}

/// Whether `s` is a possible output of the generator for the shape `p`:
/// it has exactly `p.size` characters, all from the composed character set.
pub open spec fn valid_password(p: Password, s: Seq<char>) -> bool {
    s.len() == p.size && forall|i: int| 0 <= i < s.len() ==> spec_charset(p).contains(
        #[trigger] s[i],
    )
}

/// Generates `count` passwords of the same shape; none when `count` is not
/// positive.
pub fn generate_batch(password: &Password, count: i32) -> (r: Result<Vec<String>, GenerationError>)
    ensures
        r is Ok,
        r matches Ok(v) ==> v@.len() == (if count > 0 {
            count as int
        } else {
            0
        }) && forall|i: int| 0 <= i < v@.len() ==> valid_password(*password, (#[trigger] v@[i])@),
{
    let n: usize = if count > 0 {
        count as usize
    } else {
        0
    };
    let mut out: Vec<String> = Vec::new();
    let mut k: usize = 0;
    while k < n
        invariant
            k <= n,
            out@.len() == k,
            forall|i: int| 0 <= i < out@.len() ==> valid_password(*password, (#[trigger] out@[i])@),
        decreases n - k,
    {
        let pw = match Password::generate(password) {
            Ok(pw) => pw,
            Err(e) => {
                return Err(e);
            },
        };
        assert(valid_password(*password, pw@));
        out.push(pw);
        k = k + 1;
    }
    Ok(out)
}

/// Law: when numbers, uppercase letters and specials are all disabled, the
/// character set is exactly the lowercase alphabet, so any string whose
/// characters come from it consists solely of lowercase ASCII letters.
pub proof fn lemma_lowercase_only(p: Password, s: Seq<char>)
    requires
        !p.use_numbers,
        !p.use_uppercase,
        !p.use_special_caracters,
        forall|i: int| 0 <= i < s.len() ==> spec_charset(p).contains(#[trigger] s[i]),
    ensures
        forall|i: int| 0 <= i < s.len() ==> 'a' <= #[trigger] s[i] && s[i] <= 'z',
{
    assert(spec_charset(p) =~= lowercase_chars());
    assert forall|i: int| 0 <= i < s.len() implies 'a' <= #[trigger] s[i] && s[i] <= 'z' by {
        let j = choose|j: int| 0 <= j < lowercase_chars().len() && lowercase_chars()[j] == s[i];
        assert(lowercase_chars().contains(s[i]));
    }
}

} // verus!
