//! Output formatting: the exact text printed to the console and written to
//! an export file, and the choice between the two modes.

use crate::generator::push_char;
use crate::options::{FileFormat, GenerationRequest};
use crate::text::{count_occ, dec_digit, dec_str, is_digit, lemma_count_occ_skip,
    lemma_dec_str_digits, lemma_split_on_concat, split_on};
use vstd::prelude::*;

verus! {

fn digit_char(d: u64) -> (c: char)
    requires
        d < 10,
    ensures
        c == dec_digit(d as nat),
{
    match d {
        0 => '0',
        1 => '1',
        2 => '2',
        3 => '3',
        4 => '4',
        5 => '5',
        6 => '6',
        7 => '7',
        8 => '8',
        _ => '9',
    }
}

/// Renders `n` in decimal, mirroring `dec_str`.
pub fn u64_to_string(n: u64) -> (s: String)
    ensures
        s@ == dec_str(n as nat),
    decreases n,
{
    if n < 10 {
        let mut s = String::new();
        push_char(&mut s, digit_char(n));
        assert(s@ =~= dec_str(n as nat));
        s
    } else {
        let mut s = u64_to_string(n / 10);
        push_char(&mut s, digit_char(n % 10));
        assert(s@ =~= dec_str(n as nat));
        s
    }
}

/// One password's text in an export file: a numbered block in plain text,
/// or one comma-separated row. `index` is 0-based; the text shows it
/// 1-based.
pub open spec fn spec_entry(index: int, pw: Seq<char>, fmt: FileFormat) -> Seq<char> {
    match fmt {
        FileFormat::Txt => seq!['\n'] + "Password "@ + dec_str((index + 1) as nat) + " :\n"@ + pw
            + seq!['\n'],
        FileFormat::Csv => dec_str((index + 1) as nat) + seq![','] + pw + seq!['\n'],
    }
}

/// Formats one password for an export file.
pub fn format_entry(index: i32, password: &String, format: &FileFormat) -> (s: String)
    requires
        0 <= index < i32::MAX,
    ensures
        s@ == spec_entry(index as int, password@, *format),
{
    let num = u64_to_string((index as u64) + 1);
    match format {
        FileFormat::Txt => {
            let mut s = String::new();
            push_char(&mut s, '\n');
            s.append("Password ");
            s.append(num.as_str());
            s.append(" :\n");
            s.append(password.as_str());
            push_char(&mut s, '\n');
            assert(s@ =~= spec_entry(index as int, password@, FileFormat::Txt));
            s
        },
        FileFormat::Csv => {
            let mut s = num;
            push_char(&mut s, ',');
            s.append(password.as_str());
            push_char(&mut s, '\n');
            assert(s@ =~= spec_entry(index as int, password@, FileFormat::Csv));
            s
        },
    }
}

/// One password's text on the console: numbered when several are printed,
/// introduced by a fixed phrase when there is only one.
pub open spec fn spec_console_entry(index: int, count: int, pw: Seq<char>) -> Seq<char> {
    if count > 1 {
        seq!['\n'] + "Password "@ + dec_str((index + 1) as nat) + " :\n\n"@ + pw + seq!['\n']
    } else {
        "\nYour password is :\n\n"@ + pw + seq!['\n']
    }
}

/// Formats one password for the console.
pub fn format_console_entry(index: i32, count: i32, password: &String) -> (s: String)
    requires
        0 <= index < i32::MAX,
    ensures
        s@ == spec_console_entry(index as int, count as int, password@),
{
    let mut s = String::new();
    if count > 1 {
        let num = u64_to_string((index as u64) + 1);
        push_char(&mut s, '\n');
        s.append("Password ");
        s.append(num.as_str());
        s.append(" :\n\n");
        s.append(password.as_str());
        push_char(&mut s, '\n');
        assert(s@ =~= spec_console_entry(index as int, count as int, password@));
    } else {
        s.append("\nYour password is :\n\n");
        s.append(password.as_str());
        push_char(&mut s, '\n');
        assert(s@ =~= spec_console_entry(index as int, count as int, password@));
    }
    s
}

/// The header line of a comma-separated export.
pub open spec fn csv_header() -> Seq<char> {
    "Id,Password\n"@
}

/// Produces the header line of a comma-separated export.
pub fn csv_header_line() -> (s: String)
    ensures
        s@ == csv_header(),
{
    String::from_str("Id,Password\n")
}

/// The concatenated entries of an export, numbered from `start`.
pub open spec fn spec_entries(pws: Seq<Seq<char>>, fmt: FileFormat, start: int) -> Seq<char>
    decreases pws.len(),
{
    if pws.len() == 0 {
        Seq::<char>::empty()
    } else {
        spec_entry(start, pws[0], fmt) + spec_entries(pws.skip(1), fmt, start + 1)
    }
}

/// The entire content of an export file: the header line (in the
/// comma-separated format only) followed by one entry per password.
pub open spec fn spec_export_content(pws: Seq<Seq<char>>, fmt: FileFormat) -> Seq<char> {
    match fmt {
        FileFormat::Txt => spec_entries(pws, FileFormat::Txt, 0),
        FileFormat::Csv => csv_header() + spec_entries(pws, FileFormat::Csv, 0),
    }
}

proof fn lemma_entries_push(pws: Seq<Seq<char>>, fmt: FileFormat, start: int, pw: Seq<char>)
    ensures
        spec_entries(pws.push(pw), fmt, start) == spec_entries(pws, fmt, start) + spec_entry(
            start + pws.len(),
            pw,
            fmt,
        ),
    decreases pws.len(),
{
    if pws.len() == 0 {
        assert(pws.push(pw).skip(1) =~~= Seq::<Seq<char>>::empty());
        assert(spec_entries(Seq::<Seq<char>>::empty(), fmt, start + 1) == Seq::<char>::empty());
        assert(pws.push(pw)[0] == pw);
        assert(spec_entries(pws.push(pw), fmt, start) =~= spec_entries(pws, fmt, start)
            + spec_entry(start + pws.len(), pw, fmt));
    } else {
        assert(pws.push(pw)[0] == pws[0]);
        assert(pws.push(pw).skip(1) =~~= pws.skip(1).push(pw));
        lemma_entries_push(pws.skip(1), fmt, start + 1, pw);
        assert(spec_entries(pws.push(pw), fmt, start) == spec_entry(start, pws[0], fmt) + (
        spec_entries(pws.skip(1), fmt, start + 1) + spec_entry(start + pws.len(), pw, fmt)));
        assert(spec_entries(pws.push(pw), fmt, start) =~= spec_entries(pws, fmt, start)
            + spec_entry(start + pws.len(), pw, fmt));
    }
}

/// Builds the entire content of an export file.
pub fn export_content(passwords: &Vec<String>, format: &FileFormat) -> (s: String)
    requires
        passwords@.len() < i32::MAX,
    ensures
        s@ == spec_export_content(passwords.deep_view(), *format),
{
    let ghost pws = passwords.deep_view();
    let mut s = match format {
        FileFormat::Txt => String::new(),
        FileFormat::Csv => csv_header_line(),
    };
    let ghost head = s@;
    let mut i: usize = 0;
    proof {
        assert(pws.take(0) =~~= Seq::<Seq<char>>::empty());
    }
    while i < passwords.len()
        invariant
            i <= passwords@.len(),
            passwords@.len() < i32::MAX,
            pws == passwords.deep_view(),
            head == (match *format {
                FileFormat::Txt => Seq::<char>::empty(),
                FileFormat::Csv => csv_header(),
            }),
            s@ == head + spec_entries(pws.take(i as int), *format, 0),
        decreases passwords@.len() - i,
    {
        let entry = format_entry(i as i32, &passwords[i], format);
        s.append(entry.as_str());
        proof {
            assert(pws[i as int] == passwords@[i as int].deep_view());
            assert(pws.take(i + 1) =~~= pws.take(i as int).push(pws[i as int]));
            lemma_entries_push(pws.take(i as int), *format, 0, pws[i as int]);
            assert(s@ =~= head + spec_entries(pws.take(i + 1), *format, 0));
        }
        i = i + 1;
    }
    proof {
        assert(pws.take(passwords@.len() as int) =~~= pws);
    }
    s
}

proof fn lemma_csv_entries_lines(pws: Seq<Seq<char>>, start: int)
    requires
        start >= 0,
        forall|i: int| 0 <= i < pws.len() ==> !(#[trigger] pws[i]).contains('\n'),
    ensures
        ({
            let lines = split_on(spec_entries(pws, FileFormat::Csv, start), '\n');
            &&& lines.len() == pws.len() + 1
            &&& lines[pws.len() as int] == Seq::<char>::empty()
            &&& forall|k: int|
                0 <= k < pws.len() ==> lines[k] == dec_str((start + k + 1) as nat) + seq![',']
                    + pws[k]
        }),
    decreases pws.len(),
{
    let lines = split_on(spec_entries(pws, FileFormat::Csv, start), '\n');
    if pws.len() == 0 {
        assert(spec_entries(pws, FileFormat::Csv, start) == Seq::<char>::empty());
        assert(lines =~~= seq![Seq::<char>::empty()]);
    } else {
        let a = dec_str((start + 1) as nat) + seq![','] + pws[0];
        let rest = spec_entries(pws.skip(1), FileFormat::Csv, start + 1);
        assert(spec_entries(pws, FileFormat::Csv, start) =~= a + seq!['\n'] + rest);
        lemma_dec_str_digits((start + 1) as nat);
        assert forall|i: int| 0 <= i < a.len() implies a[i] != '\n' by {
            if i < dec_str((start + 1) as nat).len() {
                assert(is_digit(a[i]));
            } else if i == dec_str((start + 1) as nat).len() {
                assert(a[i] == ',');
            } else {
                assert(a[i] == pws[0][i - dec_str((start + 1) as nat).len() - 1]);
                assert(pws[0].contains(a[i])) by {
                    assert(pws[0][i - dec_str((start + 1) as nat).len() - 1] == a[i]);
                }
            }
        }
        lemma_split_on_concat(a, rest, '\n');
        assert forall|i: int| 0 <= i < pws.skip(1).len() implies !(#[trigger] pws.skip(1)[i])
            .contains('\n') by {
            assert(pws.skip(1)[i] == pws[i + 1]);
        }
        lemma_csv_entries_lines(pws.skip(1), start + 1);
        let rest_lines = split_on(rest, '\n');
        assert(lines =~~= seq![a] + rest_lines);
        assert forall|k: int|
            0 <= k < pws.len() implies lines[k] == dec_str((start + k + 1) as nat) + seq![',']
            + pws[k] by {
            if k > 0 {
                assert(lines[k] == rest_lines[k - 1]);
                assert(pws.skip(1)[k - 1] == pws[k]);
            }
        }
    }
}

/// Law: a comma-separated export of newline-free passwords is, line by
/// line, the header `Id,Password` first, then for each `k` from 1 the line
/// `k,<password k>`, and nothing after the final line break.
pub proof fn lemma_csv_export_lines(pws: Seq<Seq<char>>)
    requires
        forall|i: int| 0 <= i < pws.len() ==> !(#[trigger] pws[i]).contains('\n'),
    ensures
        ({
            let lines = split_on(spec_export_content(pws, FileFormat::Csv), '\n');
            &&& lines.len() == pws.len() + 2
            &&& lines[0] == "Id,Password"@
            &&& lines[pws.len() as int + 1] == Seq::<char>::empty()
            &&& forall|k: int|
                1 <= k <= pws.len() ==> lines[k] == dec_str(k as nat) + seq![','] + pws[k - 1]
        }),
{
    let head = "Id,Password"@;
    let entries = spec_entries(pws, FileFormat::Csv, 0);
    reveal_strlit("Id,Password");
    reveal_strlit("Id,Password\n");
    assert(csv_header() =~= head + seq!['\n']);
    assert(spec_export_content(pws, FileFormat::Csv) =~= head + seq!['\n'] + entries);
    assert(forall|i: int| 0 <= i < head.len() ==> head[i] != '\n');
    lemma_split_on_concat(head, entries, '\n');
    lemma_csv_entries_lines(pws, 0);
    let lines = split_on(spec_export_content(pws, FileFormat::Csv), '\n');
    let entry_lines = split_on(entries, '\n');
    assert(lines =~~= seq![head] + entry_lines);
    assert forall|k: int|
        1 <= k <= pws.len() implies lines[k] == dec_str(k as nat) + seq![','] + pws[k - 1] by {
        assert(lines[k] == entry_lines[k - 1]);
    }
}

/// One plain-text block accounts for exactly one occurrence of
/// `"Password "`, wherever it stands in the file.
proof fn lemma_txt_block_count(idx: int, pw: Seq<char>, rest: Seq<char>)
    requires
        idx >= 0,
        !pw.contains(' '),
    ensures
        count_occ(spec_entry(idx, pw, FileFormat::Txt) + rest, "Password "@) == 1 + count_occ(
            rest,
            "Password "@,
        ),
{
    let pat = "Password "@;
    reveal_strlit("Password ");
    reveal_strlit(" :\n");
    let num = dec_str((idx + 1) as nat);
    let d = num.len() as int;
    lemma_dec_str_digits((idx + 1) as nat);
    let block = spec_entry(idx, pw, FileFormat::Txt);
    let l = pw.len() as int;
    let bl = block.len() as int;
    let s = block + rest;
    assert(pat.len() == 9);
    assert(bl == 14 + d + l);
    assert(d >= 1);

    // where each character of the block stands in `s`
    assert(s[0] == '\n');
    assert(forall|j: int| 0 <= j < 9 ==> s[1 + j] == pat[j]);
    assert forall|j: int| 0 <= j < d implies is_digit(#[trigger] s[10 + j]) by {
        assert(s[10 + j] == num[j]);
    }
    assert(s[10 + d] == ' ');
    assert(s[11 + d] == ':');
    assert(s[12 + d] == '\n');
    assert(forall|j: int| 0 <= j < l ==> s[13 + d + j] == pw[j]);
    assert(s[13 + d + l] == '\n');

    // no occurrence at position 0
    assert(s.take(9)[0] == '\n');
    assert(s.take(9) != pat);
    assert(count_occ(s, pat) == count_occ(s.skip(1), pat));

    // one occurrence at position 1
    assert(s.skip(1).take(9) =~= pat);
    assert(s.skip(1).skip(1) =~= s.skip(2));
    assert(count_occ(s.skip(1), pat) == 1 + count_occ(s.skip(2), pat));

    // no occurrence anywhere else in the block
    assert forall|q: int|
        2 <= q < bl && q + 9 <= s.len() implies #[trigger] s.skip(q).take(9) != pat by {
        let w = s.skip(q).take(9);
        assert(forall|o: int| 0 <= o < 9 ==> w[o] == s[q + o]);
        if q + 9 <= bl {
            if q + 8 == 10 + d {
                // the window ends at the block's one space after the number;
                // its first character is then never the `P` the pattern needs
                if q <= 9 {
                    assert(w[0] == pat[q - 1]);
                    assert(pat[q - 1] != 'P');
                } else {
                    assert(10 <= q < 10 + d);
                    assert(is_digit(s[q]));
                    assert(w[0] != 'P');
                }
                assert(w[0] != pat[0]);
            } else {
                // otherwise the window's ninth character is not a space
                let m = q + 8;
                assert(10 <= m <= 13 + d + l);
                if m < 10 + d {
                    assert(is_digit(s[m]));
                    assert(s[m] != ' ');
                } else if m == 11 + d || m == 12 + d || m == 13 + d + l {
                    assert(s[m] != ' ');
                } else {
                    assert(13 + d <= m < 13 + d + l);
                    assert(s[m] == pw[m - 13 - d]);
                    if s[m] == ' ' {
                        assert(pw.contains(' '));
                    }
                }
                assert(w[8] != pat[8]);
            }
        } else {
            // the window crosses out of the block, so it covers the block's
            // final line break, and the pattern has none
            let o = bl - 1 - q;
            assert(0 <= o < 9);
            assert(w[o] == s[bl - 1]);
            assert(s[bl - 1] == '\n');
            assert(pat[o] != '\n');
            assert(w[o] != pat[o]);
        }
    }
    assert forall|p: int|
        0 <= p < bl - 2 && p + 9 <= s.skip(2).len() implies #[trigger] s.skip(2).skip(p).take(9)
        != pat by {
        assert(s.skip(2).skip(p) =~= s.skip(p + 2));
        assert(s.skip(p + 2).take(9) != pat);
    }
    lemma_count_occ_skip(s.skip(2), pat, bl - 2);
    assert(s.skip(2).skip(bl - 2) =~= rest);
}

proof fn lemma_txt_entries_count(pws: Seq<Seq<char>>, start: int)
    requires
        start >= 0,
        forall|i: int| 0 <= i < pws.len() ==> !(#[trigger] pws[i]).contains(' '),
    ensures
        count_occ(spec_entries(pws, FileFormat::Txt, start), "Password "@) == pws.len(),
    decreases pws.len(),
{
    reveal_strlit("Password ");
    if pws.len() == 0 {
        assert(count_occ(Seq::<char>::empty(), "Password "@) == 0);
    } else {
        assert forall|i: int| 0 <= i < pws.skip(1).len() implies !(#[trigger] pws.skip(1)[i])
            .contains(' ') by {
            assert(pws.skip(1)[i] == pws[i + 1]);
        }
        lemma_txt_entries_count(pws.skip(1), start + 1);
        lemma_txt_block_count(start, pws[0], spec_entries(pws.skip(1), FileFormat::Txt, start + 1));
    }
}

/// Law: a plain-text export of space-free passwords contains exactly one
/// occurrence of the words `Password ` per password written.
pub proof fn lemma_txt_export_password_count(pws: Seq<Seq<char>>)
    requires
        forall|i: int| 0 <= i < pws.len() ==> !(#[trigger] pws[i]).contains(' '),
    ensures
        count_occ(spec_export_content(pws, FileFormat::Txt), "Password "@) == pws.len(),
{
    lemma_txt_entries_count(pws, 0);
}

/// The name of a new export file: a fixed stem, the creation time in
/// seconds since the Unix epoch, and an extension matching the format.
pub open spec fn spec_filename(secs: nat, fmt: FileFormat) -> Seq<char> {
    "passwords_"@ + dec_str(secs) + (match fmt {
        FileFormat::Txt => ".txt"@,
        FileFormat::Csv => ".csv"@,
    })
}

/// Builds the name of an export file created at `secs`.
pub fn export_filename(secs: u64, format: &FileFormat) -> (s: String)
    ensures
        s@ == spec_filename(secs as nat, *format),
{
    let mut s = String::from_str("passwords_");
    let num = u64_to_string(secs);
    s.append(num.as_str());
    match format {
        FileFormat::Txt => s.append(".txt"),
        FileFormat::Csv => s.append(".csv"),
    }
    assert(s@ =~= spec_filename(secs as nat, *format));
    s
}

/// Relies on std::time::SystemTime: the current time, read from the system
/// clock, as whole seconds since the Unix epoch (0 if the clock is set
/// before the epoch). The result depends on the clock, so nothing is
/// promised of it.
#[verifier::external_body]
pub fn get_sys_time_in_secs() -> u64 {
    match std::time::SystemTime::now().duration_since(std::time::SystemTime::UNIX_EPOCH) {
        Ok(n) => n.as_secs(),
        Err(_) => 0,
    }
}

/// Whether a request is served by writing a file rather than the console:
/// only when a file was asked for (or forced) and more than one password
/// is generated.
pub open spec fn spec_file_mode(r: GenerationRequest) -> bool {
    r.save_in_file && r.count > 1
}

/// Decides between file export and console output for a request.
pub fn use_file_mode(req: &GenerationRequest) -> (b: bool)
    ensures
        b == spec_file_mode(*req),
{
    req.save_in_file && req.count > 1
}

/// Law: a request for a single password is always served on the console,
/// even when a file was asked for.
pub proof fn lemma_single_password_console(r: GenerationRequest)
    requires
        r.count == 1,
    ensures
        !spec_file_mode(r),
{
}

} // verus!
