//! Dataset path rules: glob components and recognised file extensions.
//!
//! A glob component matches a whole path component; `*` stands for any run of
//! characters (possibly empty) and `?` for exactly one character.
use vstd::prelude::*;

use crate::text::{ascii_lower_seq, chars_to_ascii_lowercase, chars_to_string, str_chars};

verus! {

/// `pattern[i..]` matches `text[j..]`.
pub open spec fn glob_from(pattern: Seq<char>, text: Seq<char>, i: int, j: int) -> bool
    decreases pattern.len() - i, text.len() - j,
{
    if i >= pattern.len() {
        j == text.len()
    } else if pattern[i] == '*' {
        glob_from(pattern, text, i + 1, j) || (j < text.len() && glob_from(
            pattern,
            text,
            i,
            j + 1,
        ))
    } else if j < text.len() && (pattern[i] == '?' || pattern[i] == text[j]) {
        glob_from(pattern, text, i + 1, j + 1)
    } else {
        false
    }
}

/// The whole of `text` matches the whole of `pattern`.
pub open spec fn glob_matches(pattern: Seq<char>, text: Seq<char>) -> bool {
    glob_from(pattern, text, 0, 0)
}

/// A component holds a wildcard.
pub open spec fn has_wildcard(component: Seq<char>) -> bool {
    component.contains('*') || component.contains('?')
}

/// Every filled memo cell `k` holds the match of the suffixes at
/// `(k / width, k % width)`, where `width` is one more than the text length.
pub open spec fn memo_sound(pattern: Seq<char>, text: Seq<char>, memo: Seq<Option<bool>>) -> bool {
    forall|k: int|
        0 <= k < memo.len() ==> (#[trigger] memo[k] matches Some(v) ==> v == glob_from(
            pattern,
            text,
            k / (text.len() + 1) as int,
            k % (text.len() + 1) as int,
        ))
}

proof fn lemma_cell_index(pi: int, ti: int, width: int, rows: int)
    requires
        0 <= pi < rows,
        0 <= ti < width,
    ensures
        0 <= pi * width + ti < rows * width,
        (pi * width + ti) / width == pi,
        (pi * width + ti) % width == ti,
{
    assert(0 <= pi * width + ti < rows * width) by (nonlinear_arith)
        requires
            0 <= pi < rows,
            0 <= ti < width,
    ;
    vstd::arithmetic::div_mod::lemma_fundamental_div_mod_converse(pi * width + ti, width, pi, ti);
}

/// Whether a glob component holds a wildcard character.
pub fn glob_component_has_wildcard(component: &str) -> (r: bool)
    ensures
        r == has_wildcard(component@),
{
    let chars = str_chars(component);
    let mut i: usize = 0;
    while i < chars.len()
        invariant
            chars@ == component@,
            i <= chars@.len(),
            forall|j: int| 0 <= j < i ==> chars@[j] != '*' && chars@[j] != '?',
        decreases chars.len() - i,
    {
        if chars[i] == '*' || chars[i] == '?' {
            assert(chars@[i as int] == '*' ==> component@.contains('*'));
            assert(chars@[i as int] == '?' ==> component@.contains('?'));
            return true;
        }
        i = i + 1;
    }
    false
}

/// Whether `text` matches the glob `pattern` as a whole.
pub fn glob_component_matches(pattern: &str, text: &str) -> (r: bool)
    requires
        (pattern@.len() + 1) * (text@.len() + 1) <= usize::MAX,
    ensures
        r == glob_matches(pattern@, text@),
{
    let pattern = str_chars(pattern);
    let text = str_chars(text);
    proof {
        assert((pattern@.len() + 1) * (text@.len() + 1) >= text@.len() + 1) by (nonlinear_arith);
        assert((pattern@.len() + 1) * (text@.len() + 1) >= pattern@.len() + 1) by (nonlinear_arith);
    }
    let cells = (pattern.len() + 1) * (text.len() + 1);
    let mut memo: Vec<Option<bool>> = Vec::new();
    let mut k: usize = 0;
    while k < cells
        invariant
            k <= cells,
            memo@.len() == k,
            forall|j: int| 0 <= j < k ==> memo@[j] is None,
        decreases cells - k,
    {
        memo.push(None);
        k = k + 1;
    }
    glob_component_matches_inner(&pattern, &text, 0, 0, &mut memo)
}

/// Memoised match of `pattern[pattern_idx..]` against `text[text_idx..]`; the
/// memo is laid out row by row, one row per pattern position.
fn glob_component_matches_inner(
    pattern: &Vec<char>,
    text: &Vec<char>,
    pattern_idx: usize,
    text_idx: usize,
    memo: &mut Vec<Option<bool>>,
) -> (r: bool)
    requires
        pattern_idx <= pattern@.len(),
        text_idx <= text@.len(),
        old(memo)@.len() == (pattern@.len() + 1) * (text@.len() + 1),
        memo_sound(pattern@, text@, old(memo)@),
    ensures
        r == glob_from(pattern@, text@, pattern_idx as int, text_idx as int),
        final(memo)@.len() == old(memo)@.len(),
        memo_sound(pattern@, text@, final(memo)@),
    decreases pattern@.len() - pattern_idx, text@.len() - text_idx,
{
    let total = memo.len();
    proof {
        assert((pattern@.len() + 1) * (text@.len() + 1) >= text@.len() + 1) by (nonlinear_arith);
    }
    let width = text.len() + 1;
    proof {
        lemma_cell_index(
            pattern_idx as int,
            text_idx as int,
            width as int,
            (pattern@.len() + 1) as int,
        );
    }
    let cell = pattern_idx * width + text_idx;
    if let Some(value) = memo[cell] {
        return value;
    }
    let matched = if pattern_idx == pattern.len() {
        text_idx == text.len()
    } else if pattern[pattern_idx] == '*' {
        glob_component_matches_inner(pattern, text, pattern_idx + 1, text_idx, memo) || (text_idx
            < text.len() && glob_component_matches_inner(
            pattern,
            text,
            pattern_idx,
            text_idx + 1,
            memo,
        ))
    } else if text_idx < text.len() && (pattern[pattern_idx] == '?' || pattern[pattern_idx]
        == text[text_idx]) {
        glob_component_matches_inner(pattern, text, pattern_idx + 1, text_idx + 1, memo)
    } else {
        false
    };
    let ghost before = memo@;
    memo.set(cell, Some(matched));
    assert forall|k: int| 0 <= k < memo@.len() implies (#[trigger] memo@[k] matches Some(v) ==> v
        == glob_from(pattern@, text@, k / (text@.len() + 1) as int, k % (text@.len() + 1) as int)) by {
        if k != cell {
            assert(memo@[k] == before[k]);
        }
    }
    matched
}

/// A path separator on Unix-like or Windows-like targets.
pub open spec fn is_separator(c: char) -> bool {
    c == '/' || c == '\\'
}

/// Splits a path into its components with `std::path::Path::components`, each
/// rendered as text. How a path splits depends on the target platform, so the
/// contract states what the documentation promises on every platform: a
/// component's characters come from the path, except that a root component is
/// rendered as the platform's separator; and the only characters normalized
/// away are separators and `.` components, so every other character of the
/// path lands in some component.
#[verifier::external_body]
fn path_components(path: &str) -> (r: Vec<String>)
    ensures
        forall|i: int, k: int|
            0 <= i < r@.len() && 0 <= k < r@[i]@.len() ==> (path@.contains(#[trigger] r@[i]@[k])
                || is_separator(r@[i]@[k])),
        forall|k: int|
            0 <= k < path@.len() ==> (is_separator(path@[k]) || path@[k] == '.' || exists|i: int|
                0 <= i < r@.len() && #[trigger] r@[i]@.contains(path@[k])),
{
    let mut out = Vec::new();
    for component in std::path::Path::new(path).components() {
        out.push(component.as_os_str().to_string_lossy().into_owned());
    }
    out
}

/// `ext` can be the extension of `path` on some platform: it holds no `.`, and
/// the path holds a `.` directly followed by it.
pub open spec fn extension_candidate(path: Seq<char>, ext: Seq<char>) -> bool {
    &&& !ext.contains('.')
    &&& exists|k: int|
        0 <= k && k + 1 + ext.len() <= path.len() && #[trigger] path[k] == '.' && path.subrange(
            k + 1,
            k + 1 + ext.len(),
        ) == ext
}

/// The extension of a path with `std::path::Path::extension`, as text. Which
/// part of the path is the file name depends on the platform's separators, so
/// the contract states what holds on every platform: an extension is the text
/// after the last `.` of the file name, a part of the path, so it holds no `.`
/// and follows a `.` in the path.
#[verifier::external_body]
fn path_extension(path: &str) -> (r: Option<String>)
    ensures
        r matches Some(ext) ==> extension_candidate(path@, ext@),
{
    std::path::Path::new(path).extension().and_then(|ext| ext.to_str()).map(|ext| ext.to_string())
}

/// Some component holds a wildcard.
pub open spec fn components_glob(components: Seq<String>) -> bool {
    exists|i: int| 0 <= i < components.len() && has_wildcard(#[trigger] components[i]@)
}

/// Whether any of the components holds a glob wildcard.
pub fn components_have_glob(components: &Vec<String>) -> (r: bool)
    ensures
        r == components_glob(components@),
{
    let mut i: usize = 0;
    while i < components.len()
        invariant
            i <= components@.len(),
            forall|j: int| 0 <= j < i ==> !has_wildcard(#[trigger] components@[j]@),
        decreases components.len() - i,
    {
        if glob_component_has_wildcard(components[i].as_str()) {
            return true;
        }
        i = i + 1;
    }
    false
}

/// Whether any component of the path holds a glob wildcard: exactly when the
/// path holds a `*` or a `?`, on every platform.
pub fn path_has_glob(path: &str) -> (r: bool)
    ensures
        r == has_wildcard(path@),
{
    let components = path_components(path);
    let r = components_have_glob(&components);
    proof {
        if r {
            let i = choose|i: int| 0 <= i < components@.len() && has_wildcard(#[trigger] components@[i]@);
            let c = components@[i]@;
            if c.contains('*') {
                let k = choose|k: int| 0 <= k < c.len() && c[k] == '*';
                assert(path@.contains(components@[i]@[k]) || is_separator(components@[i]@[k]));
            } else {
                let k = choose|k: int| 0 <= k < c.len() && c[k] == '?';
                assert(path@.contains(components@[i]@[k]) || is_separator(components@[i]@[k]));
            }
        }
        if has_wildcard(path@) {
            let k = if path@.contains('*') {
                choose|k: int| 0 <= k < path@.len() && path@[k] == '*'
            } else {
                choose|k: int| 0 <= k < path@.len() && path@[k] == '?'
            };
            assert(!is_separator(path@[k]) && path@[k] != '.');
            let i = choose|i: int| 0 <= i < components@.len() && #[trigger] components@[i]@.contains(path@[k]);
            assert(has_wildcard(components@[i]@));
        }
    }
    r
}

/// The extension is `txt`, compared case-insensitively.
pub open spec fn text_extension(ext: Option<Seq<char>>) -> bool {
    match ext {
        Some(e) => ascii_lower_seq(e) == "txt"@,
        None => false,
    }
}

/// The extension is `jpg`, `jpeg` or `png`, compared case-insensitively.
pub open spec fn image_extension(ext: Option<Seq<char>>) -> bool {
    match ext {
        Some(e) => ascii_lower_seq(e) == "jpg"@ || ascii_lower_seq(e) == "jpeg"@ || ascii_lower_seq(e)
            == "png"@,
        None => false,
    }
}

/// What `path_extension` may give for `path`: nothing, or a candidate extension.
pub open spec fn extension_outcome(path: Seq<char>, ext: Option<Seq<char>>) -> bool {
    match ext {
        Some(e) => extension_candidate(path, e),
        None => true,
    }
}

/// The text of an optional extension.
pub open spec fn extension_view(ext: Option<String>) -> Option<Seq<char>> {
    match ext {
        Some(e) => Some(e@),
        None => None,
    }
}

/// Whether the characters equal `expected` exactly.
fn chars_equal(a: &Vec<char>, expected: &str) -> (r: bool)
    ensures
        r == (a@ == expected@),
{
    let b = str_chars(expected);
    if a.len() != b.len() {
        return false;
    }
    let mut i: usize = 0;
    while i < a.len()
        invariant
            a@.len() == b@.len(),
            b@ == expected@,
            i <= a@.len(),
            forall|j: int| 0 <= j < i ==> a@[j] == b@[j],
        decreases a.len() - i,
    {
        if a[i] != b[i] {
            return false;
        }
        i = i + 1;
    }
    assert(a@ =~= b@);
    true
}

/// Whether an extension is `txt`, compared case-insensitively.
pub fn extension_is_text(ext: &Option<String>) -> (r: bool)
    ensures
        r == text_extension(extension_view(*ext)),
{
    match ext {
        Some(e) => {
            let lower = chars_to_ascii_lowercase(&str_chars(e.as_str()));
            chars_equal(&lower, "txt")
        },
        None => false,
    }
}

/// Whether an extension names a JPEG or PNG image, compared case-insensitively.
pub fn extension_is_supported_image(ext: &Option<String>) -> (r: bool)
    ensures
        r == image_extension(extension_view(*ext)),
{
    match ext {
        Some(e) => {
            let lower = chars_to_ascii_lowercase(&str_chars(e.as_str()));
            chars_equal(&lower, "jpg") || chars_equal(&lower, "jpeg") || chars_equal(&lower, "png")
        },
        None => false,
    }
}

/// Whether the path names a `.txt` file, compared case-insensitively: the
/// answer [`extension_is_text`] gives for the extension the platform finds.
pub fn is_text_file(path: &str) -> (r: bool)
    ensures
        exists|ext: Option<Seq<char>>| #[trigger] extension_outcome(path@, ext) && r == text_extension(ext),
{
    let ext = path_extension(path);
    let r = extension_is_text(&ext);
    assert(extension_outcome(path@, extension_view(ext)));
    r
}

/// Whether the path names a JPEG or PNG image, by case-insensitive extension:
/// the answer [`extension_is_supported_image`] gives for the extension the
/// platform finds.
pub fn is_supported_image(path: &str) -> (r: bool)
    ensures
        exists|ext: Option<Seq<char>>| #[trigger] extension_outcome(path@, ext) && r == image_extension(ext),
{
    let ext = path_extension(path);
    let r = extension_is_supported_image(&ext);
    assert(extension_outcome(path@, extension_view(ext)));
    r
}


proof fn lemma_star_matches_suffix(text: Seq<char>, j: int)
    requires
        0 <= j <= text.len(),
    ensures
        glob_from(seq!['*'], text, 0, j),
    decreases text.len() - j,
{
    assert(glob_from(seq!['*'], text, 1, text.len() as int));
    if j < text.len() {
        lemma_star_matches_suffix(text, j + 1);
    }
}

/// A lone `*` matches every component.
pub proof fn law_star_matches_everything(text: Seq<char>)
    ensures
        glob_matches(seq!['*'], text),
{
    lemma_star_matches_suffix(text, 0);
}

proof fn lemma_literal_suffix(pattern: Seq<char>, text: Seq<char>, i: int, j: int)
    requires
        !has_wildcard(pattern),
        0 <= i <= pattern.len(),
        0 <= j <= text.len(),
    ensures
        glob_from(pattern, text, i, j) <==> pattern.subrange(i, pattern.len() as int)
            =~= text.subrange(j, text.len() as int),
    decreases pattern.len() - i,
{
    if i < pattern.len() {
        assert(pattern[i] != '*' && pattern[i] != '?') by {
            if pattern[i] == '*' {
                assert(pattern.contains('*'));
            }
            if pattern[i] == '?' {
                assert(pattern.contains('?'));
            }
        }
        if j < text.len() {
            lemma_literal_suffix(pattern, text, i + 1, j + 1);
            if pattern.subrange(i, pattern.len() as int) =~= text.subrange(j, text.len() as int) {
                assert(pattern[i] == pattern.subrange(i, pattern.len() as int)[0]);
                assert(text[j] == text.subrange(j, text.len() as int)[0]);
                assert(pattern.subrange(i + 1, pattern.len() as int) =~= pattern.subrange(
                    i,
                    pattern.len() as int,
                ).subrange(1, pattern.len() - i));
                assert(text.subrange(j + 1, text.len() as int) =~= text.subrange(
                    j,
                    text.len() as int,
                ).subrange(1, text.len() - j));
            }
            if pattern[i] == text[j] && pattern.subrange(i + 1, pattern.len() as int)
                =~= text.subrange(j + 1, text.len() as int) {
                assert(pattern.subrange(i, pattern.len() as int) =~= text.subrange(
                    j,
                    text.len() as int,
                )) by {
                    assert forall|k: int| 0 <= k < pattern.len() - i implies pattern.subrange(
                        i,
                        pattern.len() as int,
                    )[k] == text.subrange(j, text.len() as int)[k] by {
                        if k > 0 {
                            assert(pattern.subrange(i + 1, pattern.len() as int)[k - 1]
                                == text.subrange(j + 1, text.len() as int)[k - 1]);
                        }
                    }
                }
            }
        } else {
            assert(pattern.subrange(i, pattern.len() as int).len() > 0);
        }
    } else {
        if j < text.len() {
            assert(text.subrange(j, text.len() as int).len() > 0);
        }
    }
}

/// A pattern without wildcards matches exactly the text equal to it.
pub proof fn law_literal_pattern_matches_itself_only(pattern: Seq<char>, text: Seq<char>)
    requires
        !has_wildcard(pattern),
    ensures
        glob_matches(pattern, text) <==> pattern == text,
{
    lemma_literal_suffix(pattern, text, 0, 0);
    assert(pattern.subrange(0, pattern.len() as int) =~= pattern);
    assert(text.subrange(0, text.len() as int) =~= text);
}

/// A lone `?` matches exactly the one-character components.
pub proof fn law_question_mark_matches_one_character(text: Seq<char>)
    ensures
        glob_matches(seq!['?'], text) <==> text.len() == 1,
{
    let p = seq!['?'];
    if text.len() >= 1 {
        assert(glob_from(p, text, 1, 1) <==> text.len() == 1);
    }
}


/// Characters that `char::is_whitespace` accepts (Unicode `White_Space`).
pub open spec fn is_space(c: char) -> bool {
    ||| c == '\t'
    ||| c == '\n'
    ||| c == '\u{b}'
    ||| c == '\u{c}'
    ||| c == '\r'
    ||| c == ' '
    ||| c == '\u{85}'
    ||| c == '\u{a0}'
    ||| c == '\u{1680}'
    ||| ('\u{2000}' <= c && c <= '\u{200a}')
    ||| c == '\u{2028}'
    ||| c == '\u{2029}'
    ||| c == '\u{202f}'
    ||| c == '\u{205f}'
    ||| c == '\u{3000}'
}

/// `s` without its leading white space.
pub open spec fn trim_start(s: Seq<char>) -> Seq<char>
    decreases s.len(),
{
    if s.len() > 0 && is_space(s[0]) {
        trim_start(s.drop_first())
    } else {
        s
    }
}

/// `s` without its trailing white space.
pub open spec fn trim_end(s: Seq<char>) -> Seq<char>
    decreases s.len(),
{
    if s.len() > 0 && is_space(s.last()) {
        trim_end(s.drop_last())
    } else {
        s
    }
}

/// The part of `s` before its first `#`.
pub open spec fn before_hash(s: Seq<char>) -> Seq<char>
    decreases s.len(),
{
    if s.len() == 0 {
        s
    } else if s[0] == '#' {
        Seq::empty()
    } else {
        seq![s[0]] + before_hash(s.drop_first())
    }
}

/// A line ended by `\n` loses one `\r` before the `\n`.
pub open spec fn strip_carriage_return(line: Seq<char>) -> Seq<char> {
    if line.len() > 0 && line.last() == '\r' {
        line.drop_last()
    } else {
        line
    }
}

/// Lines closed by `\n` in the first `n` characters, and the open line.
pub open spec fn scan_lines(text: Seq<char>, n: int) -> (Seq<Seq<char>>, Seq<char>)
    decreases n,
{
    if n <= 0 {
        (Seq::empty(), Seq::empty())
    } else {
        let (closed, open) = scan_lines(text, n - 1);
        if text[n - 1] == '\n' {
            (closed.push(strip_carriage_return(open)), Seq::empty())
        } else {
            (closed, open.push(text[n - 1]))
        }
    }
}

/// The lines of a text as `str::lines` gives them.
pub open spec fn text_lines(text: Seq<char>) -> Seq<Seq<char>> {
    let (closed, open) = scan_lines(text, text.len() as int);
    if open.len() == 0 {
        closed
    } else {
        closed.push(open)
    }
}

/// The entry of one list-file line: the text before `#`, trimmed.
pub open spec fn line_entry(line: Seq<char>) -> Seq<char> {
    trim_end(trim_start(before_hash(line)))
}

/// Entries of the first `n` lines, skipping empty ones.
pub open spec fn entries_of(lines: Seq<Seq<char>>, n: int) -> Seq<Seq<char>>
    decreases n,
{
    if n <= 0 {
        Seq::empty()
    } else {
        let rest = entries_of(lines, n - 1);
        let e = line_entry(lines[n - 1]);
        if e.len() == 0 {
            rest
        } else {
            rest.push(e)
        }
    }
}

fn is_space_exec(c: char) -> (r: bool)
    ensures
        r == is_space(c),
{
    c == '\t' || c == '\n' || c == '\u{b}' || c == '\u{c}' || c == '\r' || c == ' ' || c == '\u{85}'
        || c == '\u{a0}' || c == '\u{1680}' || ('\u{2000}' <= c && c <= '\u{200a}') || c
        == '\u{2028}' || c == '\u{2029}' || c == '\u{202f}' || c == '\u{205f}' || c == '\u{3000}'
}

proof fn lemma_before_hash_prefix(s: Seq<char>, k: int)
    requires
        0 <= k <= s.len(),
        forall|j: int| 0 <= j < k ==> s[j] != '#',
        k == s.len() || s[k] == '#',
    ensures
        before_hash(s) == s.take(k),
    decreases s.len(),
{
    if s.len() > 0 && k > 0 {
        lemma_before_hash_prefix(s.drop_first(), k - 1);
        assert(seq![s[0]] + s.drop_first().take(k - 1) =~= s.take(k));
    } else if s.len() > 0 {
        assert(s.take(0) =~= Seq::<char>::empty());
    } else {
        assert(s.take(k) =~= s);
    }
}

proof fn lemma_trim_start_skip(s: Seq<char>, k: int)
    requires
        0 <= k <= s.len(),
        forall|j: int| 0 <= j < k ==> is_space(s[j]),
        k == s.len() || !is_space(s[k]),
    ensures
        trim_start(s) == s.skip(k),
    decreases s.len(),
{
    if k > 0 {
        lemma_trim_start_skip(s.drop_first(), k - 1);
        assert(s.drop_first().skip(k - 1) =~= s.skip(k));
    } else {
        assert(s.skip(0) =~= s);
    }
}

proof fn lemma_trim_end_take(s: Seq<char>, k: int)
    requires
        0 <= k <= s.len(),
        forall|j: int| k <= j < s.len() ==> is_space(s[j]),
        k == 0 || !is_space(s[k - 1]),
    ensures
        trim_end(s) == s.take(k),
    decreases s.len(),
{
    if k < s.len() {
        lemma_trim_end_take(s.drop_last(), k);
        assert(s.drop_last().take(k) =~= s.take(k));
    } else {
        assert(s.take(k) =~= s);
    }
}

/// The entry of one line: the text before `#`, without surrounding white space.
fn line_entry_chars(line: &Vec<char>) -> (r: Vec<char>)
    ensures
        r@ == line_entry(line@),
{
    let mut stop: usize = 0;
    while stop < line.len() && line[stop] != '#'
        invariant
            stop <= line@.len(),
            forall|j: int| 0 <= j < stop ==> line@[j] != '#',
        decreases line.len() - stop,
    {
        stop = stop + 1;
    }
    proof {
        lemma_before_hash_prefix(line@, stop as int);
    }
    let ghost head = line@.take(stop as int);
    let mut start: usize = 0;
    while start < stop && is_space_exec(line[start])
        invariant
            start <= stop <= line@.len(),
            head == line@.take(stop as int),
            forall|j: int| 0 <= j < start ==> is_space(head[j]),
        decreases stop - start,
    {
        start = start + 1;
    }
    proof {
        lemma_trim_start_skip(head, start as int);
    }
    let ghost mid = head.skip(start as int);
    let mut end: usize = stop;
    while end > start && is_space_exec(line[end - 1])
        invariant
            start <= end <= stop <= line@.len(),
            head == line@.take(stop as int),
            mid == head.skip(start as int),
            forall|j: int| end - start <= j < mid.len() ==> is_space(mid[j]),
        decreases end - start,
    {
        end = end - 1;
    }
    proof {
        lemma_trim_end_take(mid, end - start);
    }
    let mut out: Vec<char> = Vec::new();
    let mut k: usize = start;
    while k < end
        invariant
            start <= k <= end <= stop <= line@.len(),
            head == line@.take(stop as int),
            mid == head.skip(start as int),
            out@ =~= mid.take(k - start),
        decreases end - k,
    {
        out.push(line[k]);
        k = k + 1;
    }
    out
}

/// Non-empty entries of a list file, one per line: the text before `#`,
/// without surrounding white space.
pub fn list_file_entries(text: &str) -> (r: Vec<String>)
    ensures
        r@.len() == entries_of(text_lines(text@), text_lines(text@).len() as int).len(),
        forall|i: int|
            0 <= i < r@.len() ==> #[trigger] r@[i]@ == entries_of(
                text_lines(text@),
                text_lines(text@).len() as int,
            )[i],
{
    let chars = str_chars(text);
    let mut lines: Vec<Vec<char>> = Vec::new();
    let mut open: Vec<char> = Vec::new();
    let mut i: usize = 0;
    while i < chars.len()
        invariant
            chars@ == text@,
            i <= chars@.len(),
            lines@.len() == scan_lines(text@, i as int).0.len(),
            forall|j: int| 0 <= j < lines@.len() ==> #[trigger] lines@[j]@ == scan_lines(text@, i as int).0[j],
            open@ == scan_lines(text@, i as int).1,
        decreases chars.len() - i,
    {
        let c = chars[i];
        if c == '\n' {
            let mut closed = open;
            if closed.len() > 0 && closed[closed.len() - 1] == '\r' {
                closed.pop();
                assert(closed@ == strip_carriage_return(scan_lines(text@, i as int).1));
            }
            lines.push(closed);
            open = Vec::new();
        } else {
            open.push(c);
        }
        i = i + 1;
    }
    if open.len() > 0 {
        lines.push(open);
    }
    let ghost all = text_lines(text@);
    assert(lines@.len() == all.len());
    assert(forall|j: int| 0 <= j < lines@.len() ==> #[trigger] lines@[j]@ == all[j]);
    let mut out: Vec<String> = Vec::new();
    let mut q: usize = 0;
    while q < lines.len()
        invariant
            q <= lines@.len(),
            lines@.len() == all.len(),
            forall|j: int| 0 <= j < lines@.len() ==> #[trigger] lines@[j]@ == all[j],
            out@.len() == entries_of(all, q as int).len(),
            forall|j: int| 0 <= j < out@.len() ==> #[trigger] out@[j]@ == entries_of(all, q as int)[j],
        decreases lines.len() - q,
    {
        let entry = line_entry_chars(&lines[q]);
        if entry.len() > 0 {
            out.push(chars_to_string(&entry));
        }
        q = q + 1;
    }
    out
}


proof fn lemma_before_hash_clean(s: Seq<char>)
    ensures
        !before_hash(s).contains('#'),
        before_hash(s).len() <= s.len(),
    decreases s.len(),
{
    if s.len() > 0 && s[0] != '#' {
        lemma_before_hash_clean(s.drop_first());
        let rest = before_hash(s.drop_first());
        assert forall|i: int| 0 <= i < (seq![s[0]] + rest).len() implies (seq![s[0]] + rest)[i]
            != '#' by {
            if i > 0 {
                assert((seq![s[0]] + rest)[i] == rest[i - 1]);
            }
        }
    }
}

proof fn lemma_trim_start_shape(s: Seq<char>)
    ensures
        exists|k: int| 0 <= k <= s.len() && trim_start(s) == s.skip(k),
        trim_start(s).len() > 0 ==> !is_space(trim_start(s)[0]),
    decreases s.len(),
{
    if s.len() > 0 && is_space(s[0]) {
        lemma_trim_start_shape(s.drop_first());
        let k = choose|k: int| 0 <= k <= s.drop_first().len() && trim_start(s.drop_first())
            == s.drop_first().skip(k);
        assert(s.drop_first().skip(k) =~= s.skip(k + 1));
    } else {
        assert(s.skip(0) =~= s);
    }
}

proof fn lemma_trim_end_shape(s: Seq<char>)
    ensures
        exists|k: int| 0 <= k <= s.len() && trim_end(s) == s.take(k),
        trim_end(s).len() > 0 ==> !is_space(trim_end(s).last()),
    decreases s.len(),
{
    if s.len() > 0 && is_space(s.last()) {
        lemma_trim_end_shape(s.drop_last());
        let k = choose|k: int| 0 <= k <= s.drop_last().len() && trim_end(s.drop_last())
            == s.drop_last().take(k);
        assert(s.drop_last().take(k) =~= s.take(k));
    } else {
        assert(s.take(s.len() as int) =~= s);
    }
}

/// Every list-file entry is non-empty, holds no `#`, and neither begins nor
/// ends with white space.
pub proof fn law_list_entries_are_trimmed_and_comment_free(text: Seq<char>)
    ensures
        forall|i: int|
            0 <= i < entries_of(text_lines(text), text_lines(text).len() as int).len() ==> {
                let e = #[trigger] entries_of(text_lines(text), text_lines(text).len() as int)[i];
                &&& e.len() > 0
                &&& !e.contains('#')
                &&& !is_space(e[0])
                &&& !is_space(e.last())
            },
{
    let lines = text_lines(text);
    lemma_entries_clean(lines, lines.len() as int);
}

proof fn lemma_entries_clean(lines: Seq<Seq<char>>, n: int)
    ensures
        forall|i: int|
            0 <= i < entries_of(lines, n).len() ==> {
                let e = #[trigger] entries_of(lines, n)[i];
                &&& e.len() > 0
                &&& !e.contains('#')
                &&& !is_space(e[0])
                &&& !is_space(e.last())
            },
    decreases n,
{
    if n > 0 {
        lemma_entries_clean(lines, n - 1);
        let line = lines[n - 1];
        let head = before_hash(line);
        lemma_before_hash_clean(line);
        lemma_trim_start_shape(head);
        let mid = trim_start(head);
        lemma_trim_end_shape(mid);
        let e = trim_end(mid);
        let k1 = choose|k: int| 0 <= k <= head.len() && mid == head.skip(k);
        let k2 = choose|k: int| 0 <= k <= mid.len() && e == mid.take(k);
        if e.len() > 0 {
            assert forall|j: int| 0 <= j < e.len() implies e[j] != '#' by {
                assert(e[j] == mid[j]);
                assert(mid[j] == head[j + k1]);
                assert(head.contains(head[j + k1]) ==> head[j + k1] != '#');
            }
            assert(e[0] == mid[0]);
        }
        let rest = entries_of(lines, n - 1);
        let all = entries_of(lines, n);
        assert forall|i: int| 0 <= i < all.len() implies {
            let x = #[trigger] all[i];
            &&& x.len() > 0
            &&& !x.contains('#')
            &&& !is_space(x[0])
            &&& !is_space(x.last())
        } by {
            if i < rest.len() {
                assert(all[i] == rest[i]);
            }
        }
    }
}

} // verus!
