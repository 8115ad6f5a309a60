//! The names of the files that hold documents: the file a title is saved
//! under, the numbered "Untitled" names offered for new documents, the title
//! read back from a markdown file name, and fresh document identifiers.

use vstd::prelude::*;

verus! {

/// Characters that never stand in a file name the sanitizer returns.
pub open spec fn is_illegal_char(c: char) -> bool {
    c == '/' || c == '?' || c == '<' || c == '>' || c == '\\' || c == ':' || c == '*' || c == '|'
        || c == '"'
}

/// Control characters: U+0000 to U+001F and U+0080 to U+009F.
pub open spec fn is_control_char(c: char) -> bool {
    (c as u32) <= 0x1f || (0x80 <= (c as u32) && (c as u32) <= 0x9f)
}

/// The number of bytes UTF-8 takes for `c`.
pub open spec fn utf8_width(c: char) -> nat {
    if (c as u32) < 0x80 {
        1
    } else if (c as u32) < 0x800 {
        2
    } else if (c as u32) < 0x10000 {
        3
    } else {
        4
    }
}

/// The number of bytes UTF-8 takes for `s`.
pub open spec fn utf8_len(s: Seq<char>) -> nat
    decreases s.len(),
{
    if s.len() == 0 {
        0
    } else {
        utf8_len(s.drop_last()) + utf8_width(s.last())
    }
}

/// `c` is the ASCII letter `lower` in either case.
pub open spec fn is_letter(c: char, lower: char) -> bool {
    c == lower || (c as u32) + 32 == (lower as u32)
}

/// `s` starts, in any case, with one of the device names that Windows
/// reserves (CON, PRN, AUX, NUL, COMn, LPTn).
pub open spec fn device_name_prefix(s: Seq<char>) -> bool {
    s.len() >= 3 && {
        ||| is_letter(s[0], 'c') && is_letter(s[1], 'o') && is_letter(s[2], 'n')
        ||| is_letter(s[0], 'p') && is_letter(s[1], 'r') && is_letter(s[2], 'n')
        ||| is_letter(s[0], 'a') && is_letter(s[1], 'u') && is_letter(s[2], 'x')
        ||| is_letter(s[0], 'n') && is_letter(s[1], 'u') && is_letter(s[2], 'l')
        ||| is_letter(s[0], 'c') && is_letter(s[1], 'o') && is_letter(s[2], 'm')
        ||| is_letter(s[0], 'l') && is_letter(s[1], 'p') && is_letter(s[2], 't')
    }
}

/// `s` is made of dots only.
pub open spec fn all_dots(s: Seq<char>) -> bool {
    s.len() > 0 && forall|i: int| 0 <= i < s.len() ==> s[i] == '.'
}

/// A name the sanitizer hands back unchanged, on every target: no illegal or
/// control character, not only dots, at most 255 bytes, not ending in a dot
/// or a space, not starting with a reserved device name.
pub open spec fn left_as_is(s: Seq<char>) -> bool {
    &&& forall|i: int| 0 <= i < s.len() ==> !is_illegal_char(#[trigger] s[i]) && !is_control_char(s[i])
    &&& !all_dots(s)
    &&& utf8_len(s) <= 255
    &&& s.len() > 0 ==> s.last() != '.' && s.last() != ' '
    &&& !device_name_prefix(s)
}

/// A name that can stand for a file: no illegal or control character, and
/// at most 255 bytes.
pub open spec fn is_safe_file_name(s: Seq<char>) -> bool {
    &&& forall|i: int| 0 <= i < s.len() ==> !is_illegal_char(#[trigger] s[i]) && !is_control_char(s[i])
    &&& utf8_len(s) <= 255
}

/// `s` without its illegal characters.
pub open spec fn without_illegal(s: Seq<char>) -> Seq<char> {
    s.filter(|c: char| !is_illegal_char(c))
}

/// `s` without its control characters.
pub open spec fn without_control(s: Seq<char>) -> Seq<char> {
    s.filter(|c: char| !is_control_char(c))
}

/// The empty name where `s` is made of dots only, `s` otherwise.
pub open spec fn unless_all_dots(s: Seq<char>) -> Seq<char> {
    if all_dots(s) {
        Seq::empty()
    } else {
        s
    }
}

/// An ASCII decimal digit.
pub open spec fn is_digit(c: char) -> bool {
    48 <= (c as u32) && (c as u32) <= 57
}

/// `s` is, in any case, a device name that Windows reserves, alone or
/// followed by a dot and anything: CON, PRN, AUX, NUL, or COM or LPT with a
/// digit.
pub open spec fn is_device_name(s: Seq<char>) -> bool {
    ||| s.len() >= 3 && (s.len() == 3 || s[3] == '.') && {
        ||| is_letter(s[0], 'c') && is_letter(s[1], 'o') && is_letter(s[2], 'n')
        ||| is_letter(s[0], 'p') && is_letter(s[1], 'r') && is_letter(s[2], 'n')
        ||| is_letter(s[0], 'a') && is_letter(s[1], 'u') && is_letter(s[2], 'x')
        ||| is_letter(s[0], 'n') && is_letter(s[1], 'u') && is_letter(s[2], 'l')
    }
    ||| s.len() >= 4 && is_digit(s[3]) && (s.len() == 4 || s[4] == '.') && {
        ||| is_letter(s[0], 'c') && is_letter(s[1], 'o') && is_letter(s[2], 'm')
        ||| is_letter(s[0], 'l') && is_letter(s[1], 'p') && is_letter(s[2], 't')
    }
}

/// The empty name where `s` is a reserved device name, `s` otherwise.
pub open spec fn unless_device_name(s: Seq<char>) -> Seq<char> {
    if is_device_name(s) {
        Seq::empty()
    } else {
        s
    }
}

/// `s` without the dots and spaces it ends with.
pub open spec fn trim_dots_spaces_end(s: Seq<char>) -> Seq<char>
    decreases s.len(),
{
    if s.len() > 0 && (s.last() == '.' || s.last() == ' ') {
        trim_dots_spaces_end(s.drop_last())
    } else {
        s
    }
}

/// The longest beginning of `s` that takes at most 255 bytes.
pub open spec fn truncate_bytes(s: Seq<char>) -> Seq<char>
    decreases s.len(),
{
    if s.len() == 0 || utf8_len(s) <= 255 {
        s
    } else {
        truncate_bytes(s.drop_last())
    }
}

/// The sanitizer's result off Windows: illegal characters, then control
/// characters removed, a name of dots only emptied, and the name cut to 255
/// bytes.
pub open spec fn sanitized_posix(name: Seq<char>) -> Seq<char> {
    truncate_bytes(unless_all_dots(without_control(without_illegal(name))))
}

/// The sanitizer's result on Windows: as off Windows, and besides a reserved
/// device name emptied and trailing dots and spaces removed before the cut.
pub open spec fn sanitized_windows(name: Seq<char>) -> Seq<char> {
    truncate_bytes(trim_dots_spaces_end(unless_device_name(unless_all_dots(without_control(without_illegal(name))))))
}

/// `r` is the sanitizer's result for `name`, under the rules of one of the
/// targets it is built for.
pub open spec fn sanitized_from(name: Seq<char>, r: Seq<char>) -> bool {
    r == sanitized_posix(name) || r == sanitized_windows(name)
}

/// `sanitize_filename::sanitize`: with no replacement text, removes illegal
/// and control characters, empties a name made of dots only and, when built
/// for Windows, a reserved device name, removes trailing dots and spaces on
/// Windows, and cuts the name to 255 bytes. Which of the two sets of rules
/// applies is fixed by the target it was built for, which nothing here can
/// name: the result is stated to follow one of them.
#[verifier::external_body]
fn sanitize(name: String) -> (r: String)
    ensures
        sanitized_from(name@, r@),
{
    sanitize_filename::sanitize(name)
}

/// A lower-case hexadecimal digit.
pub open spec fn is_lower_hex(c: char) -> bool {
    (48 <= (c as u32) && (c as u32) <= 57) || (97 <= (c as u32) && (c as u32) <= 102)
}

/// The hyphenated form of a version-4 UUID: 36 characters, hyphens at
/// positions 8, 13, 18 and 23, lower-case hexadecimal digits elsewhere, and
/// the version digit 4 at position 14.
pub open spec fn is_hyphenated_uuid(s: Seq<char>) -> bool {
    &&& s.len() == 36
    &&& forall|i: int|
        0 <= i < 36 ==> if i == 8 || i == 13 || i == 18 || i == 23 {
            #[trigger] s[i] == '-'
        } else {
            is_lower_hex(s[i])
        }
    &&& s[14] == '4'
}

/// `uuid::Uuid::new_v4` and its `to_string`: a random UUID in hyphenated
/// lower-case form. Nothing is stated of which one comes out.
#[verifier::external_body]
fn new_uuid_string() -> (r: String)
    ensures
        is_hyphenated_uuid(r@),
{
    uuid::Uuid::new_v4().to_string()
}

/// A fresh identifier for a new document: a random version-4 UUID.
pub fn new_document_id() -> (r: String)
    ensures
        is_hyphenated_uuid(r@),
{
    new_uuid_string()
}

/// The character of the decimal digit `d`.
pub open spec fn digit_char(d: nat) -> char {
    ((d + 48) as u32) as char
}

/// The decimal digits of `n`, without leading zeros.
pub open spec fn decimal(n: nat) -> Seq<char>
    decreases n,
{
    if n < 10 {
        seq![digit_char(n)]
    } else {
        decimal(n / 10).push(digit_char(n % 10))
    }
}

/// Ten to the power `k`.
pub open spec fn pow10(k: nat) -> nat
    decreases k,
{
    if k == 0 {
        1
    } else {
        10 * pow10((k - 1) as nat)
    }
}

/// Every character of `decimal(n)` is a digit, and below 10^k it has at most
/// k of them.
proof fn lemma_decimal(n: nat, k: nat)
    requires
        k >= 1,
        n < pow10(k),
    ensures
        decimal(n).len() <= k,
        forall|i: int| 0 <= i < decimal(n).len() ==> 48 <= (#[trigger] decimal(n)[i] as u32) <= 57,
    decreases n,
{
    if n >= 10 {
        let p1 = pow10((k - 1) as nat);
        if k == 1 {
            assert(pow10(0) == 1);
            assert(false);
        }
        assert(n / 10 < p1) by (nonlinear_arith)
            requires
                n < 10 * p1,
        ;
        lemma_decimal(n / 10, (k - 1) as nat);
    }
}

/// The text of the decimal digit `d`.
fn digit_str(d: u32) -> (r: &'static str)
    requires
        d < 10,
    ensures
        r@ == seq![digit_char(d as nat)],
{
    proof {
        reveal_strlit("0");
        reveal_strlit("1");
        reveal_strlit("2");
        reveal_strlit("3");
        reveal_strlit("4");
        reveal_strlit("5");
        reveal_strlit("6");
        reveal_strlit("7");
        reveal_strlit("8");
        reveal_strlit("9");
    }
    let r = if d == 0 {
        "0"
    } else if d == 1 {
        "1"
    } else if d == 2 {
        "2"
    } else if d == 3 {
        "3"
    } else if d == 4 {
        "4"
    } else if d == 5 {
        "5"
    } else if d == 6 {
        "6"
    } else if d == 7 {
        "7"
    } else if d == 8 {
        "8"
    } else {
        "9"
    };
    assert(r@ =~= seq![digit_char(d as nat)]);
    r
}

/// Appends the decimal digits of `n` to `s`.
fn push_decimal(s: &mut String, n: u32)
    ensures
        final(s)@ == old(s)@ + decimal(n as nat),
    decreases n,
{
    if n >= 10 {
        push_decimal(s, n / 10);
    }
    s.append(digit_str(n % 10));
    assert(s@ =~= old(s)@ + decimal(n as nat));
}

/// The decimal digits of `n`.
pub fn decimal_string(n: u32) -> (r: String)
    ensures
        r@ == decimal(n as nat),
{
    let mut s = String::new();
    push_decimal(&mut s, n);
    assert(s@ =~= decimal(n as nat));
    s
}

/// A name made of ASCII characters takes one byte per character.
proof fn lemma_ascii_utf8_len(s: Seq<char>)
    requires
        forall|i: int| 0 <= i < s.len() ==> (#[trigger] s[i] as u32) < 0x80,
    ensures
        utf8_len(s) == s.len(),
    decreases s.len(),
{
    if s.len() > 0 {
        assert forall|i: int| 0 <= i < s.drop_last().len() implies (#[trigger] s.drop_last()[i] as u32) < 0x80 by {
            assert(s.drop_last()[i] == s[i]);
        }
        lemma_ascii_utf8_len(s.drop_last());
        assert((s[s.len() - 1] as u32) < 0x80);
    }
}

/// The title offered for the `iteration`-th try at a new document:
/// "Untitled", then "Untitled 1", "Untitled 2", and so on.
pub open spec fn untitled_title(iteration: nat) -> Seq<char> {
    if iteration == 0 {
        "Untitled"@
    } else {
        "Untitled "@ + decimal(iteration)
    }
}

/// `s` with a trailing ".md" taken off, where it has one.
pub open spec fn strip_md(s: Seq<char>) -> Seq<char> {
    if s.len() >= 3 && s.subrange(s.len() - 3, s.len() as int) == ".md"@ {
        s.subrange(0, s.len() - 3)
    } else {
        s
    }
}

/// The file name tried for the `iteration`-th new document: the sanitized
/// "Untitled.md" or "Untitled N.md", which the sanitizer leaves as it is.
pub fn untitled_file_name(iteration: u32) -> (r: String)
    ensures
        r@ == untitled_title(iteration as nat) + ".md"@,
{
    proof {
        reveal_strlit("Untitled");
        reveal_strlit("Untitled ");
        reveal_strlit(".md");
        reveal_strlit("Untitled.md");
    }
    let raw = if iteration == 0 {
        String::from_str("Untitled.md")
    } else {
        let mut s = String::from_str("Untitled ");
        let digits = decimal_string(iteration);
        s.append(digits.as_str());
        s.append(".md");
        s
    };
    proof {
        let t = raw@;
        assert(t =~= untitled_title(iteration as nat) + ".md"@);
        if iteration > 0 {
            reveal_with_fuel(pow10, 11);
            lemma_decimal(iteration as nat, 10);
        }
        let d = decimal(iteration as nat);
        assert forall|i: int| 0 <= i < t.len() implies (#[trigger] t[i] as u32) < 0x80 && 32 <= (t[i] as u32)
            && !is_illegal_char(t[i]) by {
            if iteration > 0 && 9 <= i < 9 + d.len() {
                assert(t[i] == d[i - 9]);
            }
        }
        lemma_ascii_utf8_len(t);
        assert(t[0] == 'U');
        assert(t.last() == 'd');
        assert(left_as_is(t));
        lemma_left_as_is(t);
    }
    sanitize(raw)
}

/// `name` with a trailing ".md" taken off, where it has one.
pub fn strip_md_suffix(name: &str) -> (r: String)
    ensures
        r@ == strip_md(name@),
{
    proof {
        reveal_strlit(".md");
    }
    let n = name.unicode_len();
    if n >= 3 && name.get_char(n - 3) == '.' && name.get_char(n - 2) == 'm' && name.get_char(n - 1) == 'd' {
        assert(name@.subrange(n - 3, n as int) =~= ".md"@);
        String::from_str(name.substring_char(0, n - 3))
    } else {
        proof {
            if n >= 3 && name@.subrange(n - 3, n as int) == ".md"@ {
                assert(name@[n - 3] == name@.subrange(n - 3, n as int)[0]);
                assert(name@[n - 2] == name@.subrange(n - 3, n as int)[1]);
                assert(name@[n - 1] == name@.subrange(n - 3, n as int)[2]);
            }
        }
        String::from_str(name)
    }
}

/// Taking ".md" off the untitled file name gives back the untitled title.
pub proof fn law_untitled_title_round_trip(iteration: nat)
    ensures
        strip_md(untitled_title(iteration) + ".md"@) == untitled_title(iteration),
{
    reveal_strlit(".md");
    let t = untitled_title(iteration) + ".md"@;
    assert(t.subrange(t.len() - 3, t.len() as int) =~= ".md"@);
    assert(t.subrange(0, t.len() - 3) =~= untitled_title(iteration));
}

/// One step of the search for a title whose file does not exist yet.
#[derive(Debug)]
pub enum UntitledSearch {
    /// The title of the file tried, which does not exist.
    Found(String),
    /// The next try.
    Next(u32),
}

/// One step of the search for a new document's title: `file_exists` says
/// whether the file `untitled_file_name(iteration)` exists. Where it does not,
/// its title is the answer; otherwise the search goes on with the next try.
pub fn check_path_exists_step(iteration: u32, file_exists: bool) -> (r: UntitledSearch)
    requires
        !(file_exists && iteration == u32::MAX),
    ensures
        match r {
            UntitledSearch::Found(t) => !file_exists && t@ == untitled_title(iteration as nat),
            UntitledSearch::Next(n) => file_exists && n == iteration + 1,
        },
{
    if file_exists {
        UntitledSearch::Next(iteration + 1)
    } else {
        let name = untitled_file_name(iteration);
        proof {
            law_untitled_title_round_trip(iteration as nat);
        }
        UntitledSearch::Found(strip_md_suffix(name.as_str()))
    }
}

/// The file a document titled `title` is saved under: the sanitized
/// "{title}.md".
pub fn document_file_name(title: &str) -> (r: String)
    ensures
        sanitized_from(title@ + ".md"@, r@),
{
    let mut raw = String::from_str(title);
    raw.append(".md");
    sanitize(raw)
}

/// The file a document titled `title` is read from: "{title}.md", as it is.
pub fn markdown_file_name(title: &str) -> (r: String)
    ensures
        r@ == title@ + ".md"@,
{
    let mut raw = String::from_str(title);
    raw.append(".md");
    raw
}

/// The position of the last dot in `s`, or -1 where it has none.
pub open spec fn last_dot(s: Seq<char>) -> int
    decreases s.len(),
{
    if s.len() == 0 {
        -1
    } else if s.last() == '.' {
        s.len() - 1
    } else {
        last_dot(s.drop_last())
    }
}

/// The title of a markdown file named `s`: the part before its extension,
/// where the extension is "md". The extension follows the last dot, and a
/// name whose only dot is its first character has none.
pub open spec fn markdown_stem(s: Seq<char>) -> Option<Seq<char>> {
    let p = last_dot(s);
    if p > 0 && s.subrange(p + 1, s.len() as int) == "md"@ {
        Some(s.subrange(0, p))
    } else {
        None
    }
}

/// A dot at `p` with none after it is the last dot.
proof fn lemma_last_dot_is(s: Seq<char>, p: int)
    requires
        -1 <= p < s.len(),
        p >= 0 ==> s[p] == '.',
        forall|j: int| p < j < s.len() ==> #[trigger] s[j] != '.',
    ensures
        last_dot(s) == p,
    decreases s.len(),
{
    if s.len() > 0 && p < s.len() - 1 {
        assert(s[s.len() - 1] != '.');
        assert forall|j: int| p < j < s.drop_last().len() implies #[trigger] s.drop_last()[j] != '.' by {
            assert(s.drop_last()[j] == s[j]);
        }
        lemma_last_dot_is(s.drop_last(), p);
    }
}

/// The title of a markdown file in the documents folder, read off its name:
/// `None` where the name's extension is not "md".
pub fn markdown_title(file_name: &str) -> (r: Option<String>)
    ensures
        match r {
            Some(t) => markdown_stem(file_name@) == Some(t@),
            None => markdown_stem(file_name@) is None,
        },
{
    proof {
        reveal_strlit("md");
    }
    let n = file_name.unicode_len();
    let mut i: usize = n;
    while i > 0
        invariant
            i <= n,
            n == file_name@.len(),
            forall|j: int| i <= j < n ==> #[trigger] file_name@[j] != '.',
        ensures
            i <= n,
            forall|j: int| i <= j < n ==> #[trigger] file_name@[j] != '.',
            i == 0 || file_name@[i - 1] == '.',
        decreases i,
    {
        if file_name.get_char(i - 1) == '.' {
            break;
        }
        i = i - 1;
    }
    proof {
        if i > 0 && file_name@[i - 1] == '.' {
            lemma_last_dot_is(file_name@, i - 1);
        } else {
            lemma_last_dot_is(file_name@, -1);
        }
    }
    if i > 1 && file_name.get_char(i - 1) == '.' && n - i == 2 && file_name.get_char(i) == 'm'
        && file_name.get_char(i + 1) == 'd' {
        assert(file_name@.subrange(i as int, n as int) =~= "md"@);
        Some(String::from_str(file_name.substring_char(0, i - 1)))
    } else {
        proof {
            let s = file_name@;
            let p = last_dot(s);
            if p > 0 && s.subrange(p + 1, s.len() as int) == "md"@ {
                assert(s.subrange(p + 1, s.len() as int).len() == 2);
                assert(s[p + 1] == s.subrange(p + 1, s.len() as int)[0]);
                assert(s[p + 2] == s.subrange(p + 1, s.len() as int)[1]);
            }
        }
        None
    }
}

/// Filtering keeps a sequence whose every element passes.
proof fn lemma_filter_keeps_all(s: Seq<char>, pred: spec_fn(char) -> bool)
    requires
        forall|i: int| 0 <= i < s.len() ==> pred(#[trigger] s[i]),
    ensures
        s.filter(pred) == s,
    decreases s.len(),
{
    reveal_with_fuel(Seq::<_>::filter, 1);
    if s.len() > 0 {
        assert forall|i: int| 0 <= i < s.drop_last().len() implies pred(#[trigger] s.drop_last()[i]) by {
            assert(s.drop_last()[i] == s[i]);
        }
        lemma_filter_keeps_all(s.drop_last(), pred);
        assert(pred(s[s.len() - 1]));
        assert(s.drop_last().push(s.last()) =~= s);
    }
}

/// A name that needs none of the sanitizer's changes comes back unchanged
/// under the rules of every target.
proof fn lemma_left_as_is(s: Seq<char>)
    requires
        left_as_is(s),
    ensures
        sanitized_posix(s) == s,
        sanitized_windows(s) == s,
{
    lemma_filter_keeps_all(s, |c: char| !is_illegal_char(c));
    lemma_filter_keeps_all(s, |c: char| !is_control_char(c));
    assert(without_control(without_illegal(s)) == s);
    assert(!is_device_name(s));
    assert(trim_dots_spaces_end(s) == s);
    assert(truncate_bytes(s) == s);
}

/// Trimming keeps a beginning of the name.
proof fn lemma_trim_prefix(s: Seq<char>)
    ensures
        trim_dots_spaces_end(s).len() <= s.len(),
        trim_dots_spaces_end(s) == s.subrange(0, trim_dots_spaces_end(s).len() as int),
    decreases s.len(),
{
    if s.len() > 0 && (s.last() == '.' || s.last() == ' ') {
        lemma_trim_prefix(s.drop_last());
        assert(s.drop_last().subrange(0, trim_dots_spaces_end(s).len() as int) =~= s.subrange(
            0,
            trim_dots_spaces_end(s).len() as int,
        ));
    } else {
        assert(s.subrange(0, s.len() as int) =~= s);
    }
}

/// The cut keeps a beginning of the name, of at most 255 bytes.
proof fn lemma_truncate_prefix(s: Seq<char>)
    ensures
        truncate_bytes(s).len() <= s.len(),
        truncate_bytes(s) == s.subrange(0, truncate_bytes(s).len() as int),
        utf8_len(truncate_bytes(s)) <= 255,
    decreases s.len(),
{
    if s.len() == 0 || utf8_len(s) <= 255 {
        assert(s.subrange(0, s.len() as int) =~= s);
    } else {
        lemma_truncate_prefix(s.drop_last());
        assert(s.drop_last().subrange(0, truncate_bytes(s).len() as int) =~= s.subrange(
            0,
            truncate_bytes(s).len() as int,
        ));
    }
}

/// The file names the sanitizer gives, under the rules of either target,
/// hold no illegal or control character and take at most 255 bytes.
pub proof fn law_sanitized_names_are_safe(name: Seq<char>, r: Seq<char>)
    requires
        sanitized_from(name, r),
    ensures
        is_safe_file_name(r),
{
    let a = without_illegal(name);
    let b = without_control(a);
    #[allow(deprecated)]
    name.filter_lemma(|c: char| !is_illegal_char(c));
    #[allow(deprecated)]
    a.filter_lemma(|c: char| !is_control_char(c));
    assert forall|i: int| 0 <= i < b.len() implies !is_illegal_char(#[trigger] b[i]) && !is_control_char(b[i]) by {
        assert(!is_control_char(b[i]));
        assert(b.contains(b[i]));
        a.lemma_filter_contains_rev(|c: char| !is_control_char(c), b[i]);
        let j = choose|j: int| 0 <= j < a.len() && a[j] == b[i];
        assert(!is_illegal_char(a[j]));
    }
    let c = unless_all_dots(b);
    let d = unless_device_name(c);
    lemma_trim_prefix(d);
    let e = trim_dots_spaces_end(d);
    lemma_truncate_prefix(c);
    lemma_truncate_prefix(e);
    let p = truncate_bytes(c);
    let w = truncate_bytes(e);
    assert forall|i: int| 0 <= i < p.len() implies !is_illegal_char(#[trigger] p[i]) && !is_control_char(p[i]) by {
        assert(p[i] == c[i]);
        assert(c[i] == b[i]);
    }
    assert forall|i: int| 0 <= i < w.len() implies !is_illegal_char(#[trigger] w[i]) && !is_control_char(w[i]) by {
        assert(w[i] == e[i]);
        assert(e[i] == d[i]);
        assert(d[i] == c[i]);
        assert(c[i] == b[i]);
    }
}

} // verus!
