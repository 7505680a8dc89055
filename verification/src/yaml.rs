//! The YAML document that holds the configuration on disk.
//!
//! The recognized documents are flat, single-level mappings, one
//! `key: value` entry per line, with blank lines, comment lines, an
//! optional leading `---` marker, and comments after a value. The
//! `storage_path` entry must appear exactly once and carry a string
//! scalar: plain, double-quoted (with `\\ \" \n \t \r` escapes) or
//! single-quoted (with `''` for a quote). Entries under other keys are
//! ignored without interpreting their values. A plain scalar must not
//! start with a YAML indicator character, contain a mapping-like `: `,
//! or spell a YAML null or boolean, so documents such as
//! `storage_path: [` or `storage_path: null` are malformed rather than
//! loaded. Serialization emits the storage path as a plain scalar when
//! the plain form can carry it, and as a double-quoted scalar with
//! escapes otherwise, so every serialized configuration reads back.

use vstd::prelude::*;

use crate::config::Configuration;

verus! {

// ---------------------------------------------------------------------
// Character classes
// ---------------------------------------------------------------------

/// YAML indicator characters that cannot open a plain scalar:
/// `[ ] { } # & * ! | > % @ ` " ' ,`.
pub open spec fn is_indicator(c: char) -> bool {
    let u = c as u32;
    u == 91 || u == 93 || u == 123 || u == 125 || u == 35 || u == 38 || u == 42 || u == 33
        || u == 124 || u == 62 || u == 37 || u == 64 || u == 96 || u == 34 || u == 39 || u == 44
}

fn is_indicator_exec(c: char) -> (b: bool)
    ensures
        b == is_indicator(c),
{
    let u = c as u32;
    u == 91 || u == 93 || u == 123 || u == 125 || u == 35 || u == 38 || u == 42 || u == 33
        || u == 124 || u == 62 || u == 37 || u == 64 || u == 96 || u == 34 || u == 39 || u == 44
}

/// Characters that may stand in an emitted plain scalar: letters,
/// digits, and `/ . _ - +`.
pub open spec fn safe_char(c: char) -> bool {
    let u = c as u32;
    (97 <= u && u <= 122) || (65 <= u && u <= 90) || (48 <= u && u <= 57) || u == 47 || u == 46
        || u == 95 || u == 45 || u == 43
}

fn safe_char_exec(c: char) -> (b: bool)
    ensures
        b == safe_char(c),
{
    let u = c as u32;
    (97 <= u && u <= 122) || (65 <= u && u <= 90) || (48 <= u && u <= 57) || u == 47 || u == 46
        || u == 95 || u == 45 || u == 43
}

/// Characters that a plain mapping key may not contain.
pub open spec fn bad_key_char(c: char) -> bool {
    c == ' ' || c == '#' || c == '"' || c == '\'' || c == '\t'
}

// ---------------------------------------------------------------------
// Small text helpers
// ---------------------------------------------------------------------

/// The index of the first occurrence of `c` in `s`, or `s.len()` when
/// `c` does not occur.
pub open spec fn find_char(s: Seq<char>, c: char) -> int
    decreases s.len(),
{
    if s.len() == 0 {
        0
    } else if s[0] == c {
        0
    } else {
        1 + find_char(s.subrange(1, s.len() as int), c)
    }
}

proof fn lemma_find_char(s: Seq<char>, c: char)
    ensures
        0 <= find_char(s, c) <= s.len(),
        find_char(s, c) < s.len() ==> s[find_char(s, c)] == c,
        forall|j: int| 0 <= j < find_char(s, c) ==> s[j] != c,
    decreases s.len(),
{
    if s.len() > 0 && s[0] != c {
        let sub = s.subrange(1, s.len() as int);
        lemma_find_char(sub, c);
        assert forall|j: int| 0 <= j < find_char(s, c) implies s[j] != c by {
            if j > 0 {
                assert(s[j] == sub[j - 1]);
            }
        }
    }
}

fn find_char_exec(s: &str, c: char) -> (r: usize)
    ensures
        r as int == find_char(s@, c),
    decreases s@.len(),
{
    proof {
        lemma_find_char(s@, c);
    }
    let n = s.unicode_len();
    if n == 0 {
        0
    } else if s.get_char(0) == c {
        0
    } else {
        let rest = s.substring_char(1, n);
        proof {
            lemma_find_char(rest@, c);
        }
        1 + find_char_exec(rest, c)
    }
}

/// `s` without its leading spaces.
pub open spec fn trim_leading(s: Seq<char>) -> Seq<char>
    decreases s.len(),
{
    if s.len() > 0 && s[0] == ' ' {
        trim_leading(s.subrange(1, s.len() as int))
    } else {
        s
    }
}

fn trim_leading_exec(s: &str) -> (r: String)
    ensures
        r@ == trim_leading(s@),
    decreases s@.len(),
{
    let n = s.unicode_len();
    if n > 0 && s.get_char(0) == ' ' {
        trim_leading_exec(s.substring_char(1, n))
    } else {
        String::from_str(s)
    }
}

/// `s` without its trailing spaces.
pub open spec fn trim_trailing(s: Seq<char>) -> Seq<char>
    decreases s.len(),
{
    if s.len() > 0 && s.last() == ' ' {
        trim_trailing(s.drop_last())
    } else {
        s
    }
}

fn trim_trailing_exec(s: &str) -> (r: String)
    ensures
        r@ == trim_trailing(s@),
    decreases s@.len(),
{
    let n = s.unicode_len();
    if n > 0 && s.get_char(n - 1) == ' ' {
        let head = s.substring_char(0, n - 1);
        proof {
            assert(head@ =~= s@.drop_last());
        }
        trim_trailing_exec(head)
    } else {
        String::from_str(s)
    }
}

/// `s` up to the first ` #` comment start.
pub open spec fn strip_comment(s: Seq<char>) -> Seq<char>
    decreases s.len(),
{
    if s.len() < 2 {
        s
    } else if s[0] == ' ' && s[1] == '#' {
        Seq::empty()
    } else {
        seq![s[0]] + strip_comment(s.subrange(1, s.len() as int))
    }
}

fn strip_comment_exec(s: &str) -> (r: String)
    ensures
        r@ == strip_comment(s@),
    decreases s@.len(),
{
    let n = s.unicode_len();
    if n < 2 {
        String::from_str(s)
    } else if s.get_char(0) == ' ' && s.get_char(1) == '#' {
        String::new()
    } else {
        let head = String::from_str(s.substring_char(0, 1));
        let tail = strip_comment_exec(s.substring_char(1, n));
        let r = head.concat(tail.as_str());
        proof {
            assert(r@ =~= seq![s@[0]] + strip_comment(s@.subrange(1, n as int)));
        }
        r
    }
}

proof fn lemma_strip_comment_no_space(s: Seq<char>)
    requires
        forall|j: int| 0 <= j < s.len() ==> s[j] != ' ',
    ensures
        strip_comment(s) == s,
    decreases s.len(),
{
    if s.len() >= 2 {
        lemma_strip_comment_no_space(s.subrange(1, s.len() as int));
        assert(seq![s[0]] + s.subrange(1, s.len() as int) =~= s);
    }
}

// ---------------------------------------------------------------------
// Scalars
// ---------------------------------------------------------------------

/// The character named by a double-quote escape, if the escape exists.
pub open spec fn unescape_char(c: char) -> Option<char> {
    if c == '\\' {
        Some('\\')
    } else if c == '"' {
        Some('"')
    } else if c == 'n' {
        Some('\n')
    } else if c == 't' {
        Some('\t')
    } else if c == 'r' {
        Some('\r')
    } else {
        None
    }
}

/// Scans a double-quoted scalar after its opening quote: the content up
/// to the closing quote with escapes decoded, and how many characters
/// were consumed (closing quote included).
pub open spec fn dq_scan(t: Seq<char>) -> Option<(Seq<char>, nat)>
    decreases t.len(),
{
    if t.len() == 0 {
        None
    } else if t[0] == '"' {
        Some((Seq::empty(), 1))
    } else if t[0] == '\\' {
        if t.len() < 2 {
            None
        } else {
            match unescape_char(t[1]) {
                None => None,
                Some(c) => match dq_scan(t.subrange(2, t.len() as int)) {
                    None => None,
                    Some((content, used)) => Some((seq![c] + content, (used + 2) as nat)),
                },
            }
        }
    } else {
        match dq_scan(t.subrange(1, t.len() as int)) {
            None => None,
            Some((content, used)) => Some((seq![t[0]] + content, (used + 1) as nat)),
        }
    }
}

proof fn lemma_dq_scan_len(t: Seq<char>)
    ensures
        dq_scan(t) matches Some((content, used)) ==> 1 <= used <= t.len(),
    decreases t.len(),
{
    if t.len() > 0 && t[0] == '\\' && t.len() >= 2 {
        lemma_dq_scan_len(t.subrange(2, t.len() as int));
    } else if t.len() > 0 && t[0] != '"' {
        lemma_dq_scan_len(t.subrange(1, t.len() as int));
    }
}

fn dq_scan_exec(t: &str) -> (r: Option<(String, usize)>)
    ensures
        (r is Some) == (dq_scan(t@) is Some),
        r matches Some((content, used)) ==> dq_scan(t@) == Some((content@, used as nat)),
    decreases t@.len(),
{
    proof {
        lemma_dq_scan_len(t@);
    }
    let n = t.unicode_len();
    if n == 0 {
        None
    } else if t.get_char(0) == '"' {
        Some((String::new(), 1))
    } else if t.get_char(0) == '\\' {
        if n < 2 {
            return None;
        }
        let e = t.get_char(1);
        let decoded: char = if e == '\\' {
            '\\'
        } else if e == '"' {
            '"'
        } else if e == 'n' {
            '\n'
        } else if e == 't' {
            '\t'
        } else if e == 'r' {
            '\r'
        } else {
            return None;
        };
        let rest = t.substring_char(2, n);
        proof {
            lemma_dq_scan_len(rest@);
        }
        match dq_scan_exec(rest) {
            None => None,
            Some((content, used)) => {
                let one = match decoded {
                    '\\' => String::from_str("\\"),
                    '"' => String::from_str("\""),
                    '\n' => String::from_str("\n"),
                    '\t' => String::from_str("\t"),
                    _ => String::from_str("\r"),
                };
                proof {
                    reveal_strlit("\\");
                    reveal_strlit("\"");
                    reveal_strlit("\n");
                    reveal_strlit("\t");
                    reveal_strlit("\r");
                    assert(one@ =~= seq![decoded]);
                }
                let r = one.concat(content.as_str());
                proof {
                    assert(r@ =~= seq![decoded] + content@);
                }
                Some((r, used + 2))
            },
        }
    } else {
        let rest = t.substring_char(1, n);
        proof {
            lemma_dq_scan_len(rest@);
        }
        match dq_scan_exec(rest) {
            None => None,
            Some((content, used)) => {
                let head = String::from_str(t.substring_char(0, 1));
                let r = head.concat(content.as_str());
                proof {
                    assert(r@ =~= seq![t@[0]] + content@);
                }
                Some((r, used + 1))
            },
        }
    }
}

/// Scans a single-quoted scalar after its opening quote; `''` stands
/// for one quote.
pub open spec fn sq_scan(t: Seq<char>) -> Option<(Seq<char>, nat)>
    decreases t.len(),
{
    if t.len() == 0 {
        None
    } else if t[0] == '\'' {
        if t.len() >= 2 && t[1] == '\'' {
            match sq_scan(t.subrange(2, t.len() as int)) {
                None => None,
                Some((content, used)) => Some((seq!['\''] + content, (used + 2) as nat)),
            }
        } else {
            Some((Seq::empty(), 1))
        }
    } else {
        match sq_scan(t.subrange(1, t.len() as int)) {
            None => None,
            Some((content, used)) => Some((seq![t[0]] + content, (used + 1) as nat)),
        }
    }
}

proof fn lemma_sq_scan_len(t: Seq<char>)
    ensures
        sq_scan(t) matches Some((content, used)) ==> 1 <= used <= t.len(),
    decreases t.len(),
{
    if t.len() > 0 && t[0] == '\'' && t.len() >= 2 && t[1] == '\'' {
        lemma_sq_scan_len(t.subrange(2, t.len() as int));
    } else if t.len() > 0 && t[0] != '\'' {
        lemma_sq_scan_len(t.subrange(1, t.len() as int));
    }
}

fn sq_scan_exec(t: &str) -> (r: Option<(String, usize)>)
    ensures
        (r is Some) == (sq_scan(t@) is Some),
        r matches Some((content, used)) ==> sq_scan(t@) == Some((content@, used as nat)),
    decreases t@.len(),
{
    proof {
        lemma_sq_scan_len(t@);
    }
    let n = t.unicode_len();
    if n == 0 {
        None
    } else if t.get_char(0) == '\'' {
        if n >= 2 && t.get_char(1) == '\'' {
            let rest = t.substring_char(2, n);
            proof {
                lemma_sq_scan_len(rest@);
            }
            match sq_scan_exec(rest) {
                None => None,
                Some((content, used)) => {
                    let head = String::from_str(t.substring_char(0, 1));
                    let r = head.concat(content.as_str());
                    proof {
                        assert(r@ =~= seq!['\''] + content@);
                    }
                    Some((r, used + 2))
                },
            }
        } else {
            Some((String::new(), 1))
        }
    } else {
        let rest = t.substring_char(1, n);
        proof {
            lemma_sq_scan_len(rest@);
        }
        match sq_scan_exec(rest) {
            None => None,
            Some((content, used)) => {
                let head = String::from_str(t.substring_char(0, 1));
                let r = head.concat(content.as_str());
                proof {
                    assert(r@ =~= seq![t@[0]] + content@);
                }
                Some((r, used + 1))
            },
        }
    }
}

/// A blank line, or a line holding only a comment.
pub open spec fn is_skippable(line: Seq<char>) -> bool {
    trim_leading(line).len() == 0 || trim_leading(line)[0] == '#'
}

fn is_skippable_exec(line: &str) -> (b: bool)
    ensures
        b == is_skippable(line@),
{
    let t = trim_leading_exec(line);
    let n = t.as_str().unicode_len();
    n == 0 || t.as_str().get_char(0) == '#'
}

/// What may follow a closing quote on its line: spaces, or spaces and a
/// comment.
pub open spec fn ok_tail(r: Seq<char>) -> bool {
    r.len() == 0 || (r[0] == ' ' && is_skippable(r))
}

fn ok_tail_exec(r: &str) -> (b: bool)
    ensures
        b == ok_tail(r@),
{
    let n = r.unicode_len();
    n == 0 || (r.get_char(0) == ' ' && is_skippable_exec(r))
}

/// The exact spellings YAML reads as null or boolean, which therefore
/// cannot stand for a string.
pub open spec fn is_yaml_literal(s: Seq<char>) -> bool {
    s == "~"@ || s == "null"@ || s == "Null"@ || s == "NULL"@ || s == "true"@ || s == "True"@
        || s == "TRUE"@ || s == "false"@ || s == "False"@ || s == "FALSE"@
}

fn is_yaml_literal_exec(s: &str) -> (b: bool)
    ensures
        b == is_yaml_literal(s@),
{
    let v = String::from_str(s);
    v == String::from_str("~") || v == String::from_str("null") || v == String::from_str("Null")
        || v == String::from_str("NULL") || v == String::from_str("true") || v == String::from_str(
        "True",
    ) || v == String::from_str("TRUE") || v == String::from_str("false") || v == String::from_str(
        "False",
    ) || v == String::from_str("FALSE")
}

/// A `: ` (or trailing `:`) inside a plain scalar, which would make the
/// line a nested mapping.
pub open spec fn has_bad_colon(s: Seq<char>) -> bool {
    exists|i: int| 0 <= i < s.len() && (#[trigger] s[i]) == ':' && (i + 1 == s.len() || s[i + 1] == ' ')
}

fn has_bad_colon_exec(s: &str) -> (b: bool)
    ensures
        b == has_bad_colon(s@),
{
    let n = s.unicode_len();
    let mut i: usize = 0;
    while i < n
        invariant
            0 <= i <= n,
            n == s@.len(),
            forall|j: int|
                0 <= j < i ==> !((#[trigger] s@[j]) == ':' && (j + 1 == s@.len() || s@[j + 1]
                    == ' ')),
        decreases n - i,
    {
        if s.get_char(i) == ':' && (i + 1 == n || s.get_char(i + 1) == ' ') {
            return true;
        }
        i += 1;
    }
    false
}

fn contains_tab_exec(s: &str) -> (b: bool)
    ensures
        b == s@.contains('\t'),
{
    let n = s.unicode_len();
    let mut i: usize = 0;
    while i < n
        invariant
            0 <= i <= n,
            n == s@.len(),
            forall|j: int| 0 <= j < i ==> s@[j] != '\t',
        decreases n - i,
    {
        if s.get_char(i) == '\t' {
            return true;
        }
        i += 1;
    }
    false
}

/// The string a plain scalar names, or `None` when the text is not an
/// acceptable plain string scalar.
pub open spec fn parse_plain(t: Seq<char>) -> Option<Seq<char>> {
    let content = trim_trailing(strip_comment(t));
    if content.len() == 0 {
        None
    } else if is_indicator(content[0]) {
        None
    } else if (content[0] == '-' || content[0] == '?') && (content.len() == 1 || content[1] == ' ')
    {
        None
    } else if has_bad_colon(content) {
        None
    } else if content.contains('\t') {
        None
    } else if is_yaml_literal(content) {
        None
    } else {
        Some(content)
    }
}

fn parse_plain_exec(t: &str) -> (r: Option<String>)
    ensures
        (r is Some) == (parse_plain(t@) is Some),
        r matches Some(v) ==> parse_plain(t@) == Some(v@),
{
    let stripped = strip_comment_exec(t);
    let content = trim_trailing_exec(stripped.as_str());
    let n = content.as_str().unicode_len();
    if n == 0 {
        return None;
    }
    let c0 = content.as_str().get_char(0);
    if is_indicator_exec(c0) {
        return None;
    }
    if (c0 == '-' || c0 == '?') && (n == 1 || content.as_str().get_char(1) == ' ') {
        return None;
    }
    if has_bad_colon_exec(content.as_str()) {
        return None;
    }
    if contains_tab_exec(content.as_str()) {
        return None;
    }
    if is_yaml_literal_exec(content.as_str()) {
        return None;
    }
    Some(content)
}

/// The string a scalar names: plain, double-quoted or single-quoted.
pub open spec fn parse_scalar(t: Seq<char>) -> Option<Seq<char>> {
    if t.len() == 0 {
        None
    } else if t[0] == '"' {
        match dq_scan(t.subrange(1, t.len() as int)) {
            None => None,
            Some((content, used)) => {
                if ok_tail(t.subrange(1 + used as int, t.len() as int)) {
                    Some(content)
                } else {
                    None
                }
            },
        }
    } else if t[0] == '\'' {
        match sq_scan(t.subrange(1, t.len() as int)) {
            None => None,
            Some((content, used)) => {
                if ok_tail(t.subrange(1 + used as int, t.len() as int)) {
                    Some(content)
                } else {
                    None
                }
            },
        }
    } else {
        parse_plain(t)
    }
}

fn parse_scalar_exec(t: &str) -> (r: Option<String>)
    ensures
        (r is Some) == (parse_scalar(t@) is Some),
        r matches Some(v) ==> parse_scalar(t@) == Some(v@),
{
    let n = t.unicode_len();
    if n == 0 {
        return None;
    }
    let c0 = t.get_char(0);
    if c0 == '"' {
        let inner = t.substring_char(1, n);
        proof {
            lemma_dq_scan_len(inner@);
        }
        match dq_scan_exec(inner) {
            None => None,
            Some((content, used)) => {
                let after = t.substring_char(1 + used, n);
                if ok_tail_exec(after) {
                    Some(content)
                } else {
                    None
                }
            },
        }
    } else if c0 == '\'' {
        let inner = t.substring_char(1, n);
        proof {
            lemma_sq_scan_len(inner@);
        }
        match sq_scan_exec(inner) {
            None => None,
            Some((content, used)) => {
                let after = t.substring_char(1 + used, n);
                if ok_tail_exec(after) {
                    Some(content)
                } else {
                    None
                }
            },
        }
    } else {
        parse_plain_exec(t)
    }
}

// ---------------------------------------------------------------------
// Lines and documents
// ---------------------------------------------------------------------

/// A plain, non-empty mapping key.
pub open spec fn valid_key(key: Seq<char>) -> bool {
    key.len() > 0 && forall|j: int| 0 <= j < key.len() ==> !bad_key_char(key[j])
}

fn valid_key_exec(key: &str) -> (b: bool)
    ensures
        b == valid_key(key@),
{
    let n = key.unicode_len();
    if n == 0 {
        return false;
    }
    let mut i: usize = 0;
    while i < n
        invariant
            0 <= i <= n,
            n == key@.len(),
            forall|j: int| 0 <= j < i ==> !bad_key_char(key@[j]),
        decreases n - i,
    {
        let c = key.get_char(i);
        if c == ' ' || c == '#' || c == '"' || c == '\'' || c == '\t' {
            return false;
        }
        i += 1;
    }
    true
}

/// Splits an entry line into its key and the text after the colon
/// (leading spaces removed), or `None` when the line is not an entry.
pub open spec fn parse_entry(line: Seq<char>) -> Option<(Seq<char>, Seq<char>)> {
    let i = find_char(line, ':');
    if i == line.len() {
        None
    } else if !(i + 1 == line.len() || line[i + 1] == ' ') {
        None
    } else {
        let key = line.subrange(0, i);
        if valid_key(key) {
            Some((key, trim_leading(line.subrange(i + 1, line.len() as int))))
        } else {
            None
        }
    }
}

fn parse_entry_exec(line: &str) -> (r: Option<(String, String)>)
    ensures
        (r is Some) == (parse_entry(line@) is Some),
        r matches Some((key, value_text)) ==> parse_entry(line@) == Some((key@, value_text@)),
{
    proof {
        lemma_find_char(line@, ':');
    }
    let n = line.unicode_len();
    let i = find_char_exec(line, ':');
    if i == n {
        return None;
    }
    if !(i + 1 == n || line.get_char(i + 1) == ' ') {
        return None;
    }
    let key = String::from_str(line.substring_char(0, i));
    if !valid_key_exec(key.as_str()) {
        return None;
    }
    let value_text = trim_leading_exec(line.substring_char(i + 1, n));
    Some((key, value_text))
}

/// Folds one line into the result gathered from the lines after it:
/// `None` is a malformed document, `Some(None)` no `storage_path`
/// entry yet, `Some(Some(v))` the one `storage_path` value.
pub open spec fn fold_line(line: Seq<char>, tail: Option<Option<Seq<char>>>) -> Option<
    Option<Seq<char>>,
> {
    if is_skippable(line) {
        tail
    } else {
        match parse_entry(line) {
            None => None,
            Some((key, value_text)) => {
                if key == "storage_path"@ {
                    match parse_scalar(value_text) {
                        None => None,
                        Some(v) => match tail {
                            None => None,
                            Some(None) => Some(Some(v)),
                            Some(Some(_)) => None,
                        },
                    }
                } else {
                    tail
                }
            },
        }
    }
}

/// Reads the entry lines of a document body.
pub open spec fn parse_entries(s: Seq<char>) -> Option<Option<Seq<char>>>
    decreases s.len() via parse_entries_decreases
{
    if s.len() == 0 {
        Some(None)
    } else {
        let i = find_char(s, '\n');
        let line = s.subrange(0, i);
        let rest = if i < s.len() {
            s.subrange(i + 1, s.len() as int)
        } else {
            Seq::<char>::empty()
        };
        fold_line(line, parse_entries(rest))
    }
}

#[via_fn]
proof fn parse_entries_decreases(s: Seq<char>) {
    lemma_find_char(s, '\n');
}

spec fn entries_view(r: Option<Option<String>>) -> Option<Option<Seq<char>>> {
    match r {
        None => None,
        Some(None) => Some(None),
        Some(Some(v)) => Some(Some(v@)),
    }
}

fn parse_entries_exec(s: &str) -> (r: Option<Option<String>>)
    ensures
        entries_view(r) == parse_entries(s@),
    decreases s@.len(),
{
    proof {
        lemma_find_char(s@, '\n');
        reveal_strlit("");
        reveal_strlit("storage_path");
        assert(""@ =~= Seq::<char>::empty());
    }
    let n = s.unicode_len();
    if n == 0 {
        return Some(None);
    }
    let i = find_char_exec(s, '\n');
    let line = s.substring_char(0, i);
    let rest = if i < n {
        s.substring_char(i + 1, n)
    } else {
        ""
    };
    let tail = parse_entries_exec(rest);
    proof {
        assert(parse_entries(s@) == fold_line(line@, parse_entries(rest@)));
    }
    if is_skippable_exec(line) {
        return tail;
    }
    match parse_entry_exec(line) {
        None => None,
        Some((key, value_text)) => {
            if key == String::from_str("storage_path") {
                match parse_scalar_exec(value_text.as_str()) {
                    None => None,
                    Some(v) => match tail {
                        None => None,
                        Some(None) => Some(Some(v)),
                        Some(Some(_)) => None,
                    },
                }
            } else {
                tail
            }
        },
    }
}

/// What a document means: `Some(value)` when it is a well-formed flat
/// mapping whose one `storage_path` entry carries the string scalar
/// `value`, `None` when it is malformed.
pub open spec fn parse_doc(doc: Seq<char>) -> Option<Seq<char>> {
    let i = find_char(doc, '\n');
    let first = doc.subrange(0, i);
    let body = if first == "---"@ {
        if i < doc.len() {
            doc.subrange(i + 1, doc.len() as int)
        } else {
            Seq::<char>::empty()
        }
    } else {
        doc
    };
    match parse_entries(body) {
        Some(Some(v)) => Some(v),
        _ => None,
    }
}

/// Parses the document text; returns the storage path it carries, or
/// `None` when the document is malformed.
pub fn parse_yaml(doc: &str) -> (r: Option<String>)
    ensures
        (r is Some) == (parse_doc(doc@) is Some),
        r matches Some(v) ==> parse_doc(doc@) == Some(v@),
{
    proof {
        lemma_find_char(doc@, '\n');
        reveal_strlit("");
    }
    let n = doc.unicode_len();
    let i = find_char_exec(doc, '\n');
    let first = String::from_str(doc.substring_char(0, i));
    let result = if first == String::from_str("---") {
        let body = if i < n {
            doc.substring_char(i + 1, n)
        } else {
            ""
        };
        parse_entries_exec(body)
    } else {
        parse_entries_exec(doc)
    };
    match result {
        Some(Some(v)) => Some(v),
        _ => None,
    }
}

// ---------------------------------------------------------------------
// Serialization
// ---------------------------------------------------------------------

/// How one character is written inside a double-quoted scalar.
pub open spec fn escape_char(c: char) -> Seq<char> {
    if c == '\\' {
        seq!['\\', '\\']
    } else if c == '"' {
        seq!['\\', '"']
    } else if c == '\n' {
        seq!['\\', 'n']
    } else if c == '\t' {
        seq!['\\', 't']
    } else if c == '\r' {
        seq!['\\', 'r']
    } else {
        seq![c]
    }
}

/// The escaped body of a double-quoted scalar.
pub open spec fn escape(s: Seq<char>) -> Seq<char>
    decreases s.len(),
{
    if s.len() == 0 {
        Seq::empty()
    } else {
        escape_char(s[0]) + escape(s.subrange(1, s.len() as int))
    }
}

fn escape_exec(s: &str) -> (r: String)
    ensures
        r@ == escape(s@),
    decreases s@.len(),
{
    let n = s.unicode_len();
    if n == 0 {
        return String::new();
    }
    let c = s.get_char(0);
    let head: String = if c == '\\' {
        String::from_str("\\\\")
    } else if c == '"' {
        String::from_str("\\\"")
    } else if c == '\n' {
        String::from_str("\\n")
    } else if c == '\t' {
        String::from_str("\\t")
    } else if c == '\r' {
        String::from_str("\\r")
    } else {
        String::from_str(s.substring_char(0, 1))
    };
    proof {
        reveal_strlit("\\\\");
        reveal_strlit("\\\"");
        reveal_strlit("\\n");
        reveal_strlit("\\t");
        reveal_strlit("\\r");
        assert(head@ =~= escape_char(s@[0]));
    }
    let tail = escape_exec(s.substring_char(1, n));
    let r = head.concat(tail.as_str());
    proof {
        assert(r@ =~= escape_char(s@[0]) + escape(s@.subrange(1, n as int)));
    }
    r
}

/// Whether the plain form can carry the value as written.
pub open spec fn plain_safe(s: Seq<char>) -> bool {
    s.len() > 0 && (forall|j: int| 0 <= j < s.len() ==> safe_char(s[j])) && s[0] != '-'
        && !is_yaml_literal(s)
}

fn plain_safe_exec(s: &str) -> (b: bool)
    ensures
        b == plain_safe(s@),
{
    let n = s.unicode_len();
    if n == 0 {
        return false;
    }
    if s.get_char(0) == '-' {
        return false;
    }
    if is_yaml_literal_exec(s) {
        return false;
    }
    let mut i: usize = 0;
    while i < n
        invariant
            0 <= i <= n,
            n == s@.len(),
            forall|j: int| 0 <= j < i ==> safe_char(s@[j]),
        decreases n - i,
    {
        if !safe_char_exec(s.get_char(i)) {
            return false;
        }
        i += 1;
    }
    true
}

/// How a storage path stands in the document: plain when the plain form
/// carries it, double-quoted with escapes otherwise.
pub open spec fn rendered_scalar(s: Seq<char>) -> Seq<char> {
    if plain_safe(s) {
        s
    } else {
        seq!['"'] + escape(s) + seq!['"']
    }
}

/// The serialized document that carries a given storage path.
pub open spec fn yaml_doc_of(storage_path: Seq<char>) -> Seq<char> {
    "storage_path: "@ + rendered_scalar(storage_path) + "\n"@
}

/// Serializes a configuration to the document text.
pub fn to_yaml(configuration: &Configuration) -> (r: String)
    ensures
        r@ == yaml_doc_of(configuration.storage_path@),
{
    let sp = configuration.storage_path.as_str();
    let scalar: String = if plain_safe_exec(sp) {
        String::from_str(sp)
    } else {
        let quote = String::from_str("\"");
        let body = escape_exec(sp);
        let r = quote.concat(body.as_str());
        let r = r.concat("\"");
        proof {
            reveal_strlit("\"");
            assert(r@ =~= seq!['"'] + escape(sp@) + seq!['"']);
        }
        r
    };
    let head = String::from_str("storage_path: ");
    let doc = head.concat(scalar.as_str());
    let doc = doc.concat("\n");
    proof {
        assert(doc@ =~= "storage_path: "@ + rendered_scalar(sp@) + "\n"@);
    }
    doc
}

// ---------------------------------------------------------------------
// The round-trip law
// ---------------------------------------------------------------------

proof fn lemma_escape_no_newline(s: Seq<char>)
    ensures
        forall|j: int| 0 <= j < escape(s).len() ==> escape(s)[j] != '\n',
    decreases s.len(),
{
    if s.len() > 0 {
        let rest = s.subrange(1, s.len() as int);
        lemma_escape_no_newline(rest);
        let e0 = escape_char(s[0]);
        assert forall|j: int| 0 <= j < escape(s).len() implies escape(s)[j] != '\n' by {
            if j < e0.len() {
                assert(escape(s)[j] == e0[j]);
            } else {
                assert(escape(s)[j] == escape(rest)[j - e0.len()]);
            }
        }
    }
}

proof fn lemma_dq_scan_escape(s: Seq<char>)
    ensures
        dq_scan(escape(s) + seq!['"']) == Some((s, (escape(s).len() + 1) as nat)),
    decreases s.len(),
{
    let t = escape(s) + seq!['"'];
    if s.len() == 0 {
        assert(t =~= seq!['"']);
    } else {
        let rest = s.subrange(1, s.len() as int);
        lemma_dq_scan_escape(rest);
        let c = s[0];
        assert(t =~= escape_char(c) + (escape(rest) + seq!['"']));
        if c == '\\' || c == '"' || c == '\n' || c == '\t' || c == '\r' {
            assert(t[0] == '\\');
            assert(t.len() >= 2);
            assert(unescape_char(t[1]) == Some(c));
            assert(t.subrange(2, t.len() as int) =~= escape(rest) + seq!['"']);
            assert(seq![c] + rest =~= s);
        } else {
            assert(t[0] == c);
            assert(c != '"' && c != '\\');
            assert(t.subrange(1, t.len() as int) =~= escape(rest) + seq!['"']);
            assert(seq![c] + rest =~= s);
        }
    }
}

/// Serializing a storage path and parsing the document back yields the
/// same storage path: the text format is lossless for every
/// configuration.
pub proof fn lemma_round_trip(storage_path: Seq<char>)
    ensures
        parse_doc(yaml_doc_of(storage_path)) == Some(storage_path),
{
    reveal_strlit("storage_path: ");
    reveal_strlit("storage_path");
    reveal_strlit("---");
    reveal_strlit("\n");
    let sp = storage_path;
    let rendered = rendered_scalar(sp);
    let doc = yaml_doc_of(sp);

    // The rendered scalar holds no newline, so the document is one line.
    assert(rendered.len() > 0);
    assert forall|j: int| 0 <= j < rendered.len() implies rendered[j] != '\n' by {
        if plain_safe(sp) {
            assert(safe_char(sp[j]));
        } else {
            lemma_escape_no_newline(sp);
            if 1 <= j < 1 + escape(sp).len() {
                assert(rendered[j] == escape(sp)[j - 1]);
            }
        }
    }
    assert(doc.len() == 14 + rendered.len() + 1);
    assert forall|j: int| 0 <= j < doc.len() - 1 implies doc[j] != '\n' by {
        if j < 14 {
            assert(doc[j] == "storage_path: "@[j]);
        } else {
            assert(doc[j] == rendered[j - 14]);
        }
    }
    assert(doc[doc.len() - 1] == '\n');
    lemma_find_char(doc, '\n');
    assert(find_char(doc, '\n') == doc.len() - 1) by {
        if find_char(doc, '\n') < doc.len() - 1 {
            assert(doc[find_char(doc, '\n')] != '\n');
        }
    }
    let i = find_char(doc, '\n');
    let line = doc.subrange(0, i);
    assert(line =~= "storage_path: "@ + rendered);

    // The line is not the `---` marker and not skippable.
    assert(line[0] == 's');
    assert(line != "---"@);
    assert(trim_leading(line) == line);
    assert(!is_skippable(line));

    // It is the one entry, keyed `storage_path`.
    lemma_find_char(line, ':');
    assert(line[12] == ':');
    assert forall|j: int| 0 <= j < 12 implies line[j] != ':' by {
        assert(line[j] == "storage_path: "@[j]);
    }
    assert(find_char(line, ':') == 12) by {
        if find_char(line, ':') < 12 {
            assert(line[find_char(line, ':')] != ':');
        }
    }
    assert(line[13] == ' ');
    let key = line.subrange(0, 12);
    assert(key =~= "storage_path"@);
    assert(valid_key(key)) by {
        assert forall|j: int| 0 <= j < key.len() implies !bad_key_char(key[j]) by {
            assert(key[j] == "storage_path"@[j]);
        }
    }
    let after_colon = line.subrange(13, line.len() as int);
    assert(after_colon =~= seq![' '] + rendered);
    assert(after_colon.subrange(1, after_colon.len() as int) =~= rendered);
    assert(rendered[0] != ' ') by {
        if plain_safe(sp) {
            assert(safe_char(sp[0]));
        } else {
            assert(rendered[0] == '"');
        }
    }
    assert(trim_leading(rendered) == rendered);
    assert(after_colon[0] == ' ');
    assert(trim_leading(after_colon) == trim_leading(rendered));
    assert(parse_entry(line) == Some((key, rendered)));

    // The scalar reads back to the storage path.
    assert(parse_scalar(rendered) == Some(sp)) by {
        if plain_safe(sp) {
            assert(!is_indicator(sp[0]) && sp[0] != '"' && sp[0] != '\'') by {
                assert(safe_char(sp[0]));
            }
            assert forall|j: int| 0 <= j < sp.len() implies sp[j] != ' ' && sp[j] != ':' && sp[j]
                != '\t' by {
                assert(safe_char(sp[j]));
            }
            lemma_strip_comment_no_space(sp);
            assert(trim_trailing(sp) == sp);
            assert(!has_bad_colon(sp));
            assert(!sp.contains('\t')) by {
                if sp.contains('\t') {
                    let k = choose|k: int| 0 <= k < sp.len() && sp[k] == '\t';
                }
            }
            assert(parse_plain(sp) == Some(sp));
        } else {
            assert(rendered[0] == '"');
            lemma_dq_scan_escape(sp);
            assert(rendered.subrange(1, rendered.len() as int) =~= escape(sp) + seq!['"']);
            let used = (escape(sp).len() + 1) as nat;
            assert(rendered.subrange(1 + used as int, rendered.len() as int) =~= Seq::<char>::empty());
        }
    }

    // The rest of the document is empty, so the entry is the only one.
    assert(doc.subrange(i + 1, doc.len() as int) =~= Seq::<char>::empty());
    assert(parse_entries(Seq::<char>::empty()) == Some(None::<Seq<char>>));
    assert(parse_entries(doc) == fold_line(line, Some(None)));
    assert(parse_entries(doc) == Some(Some(sp)));
    assert(doc.subrange(0, find_char(doc, '\n')) != "---"@);
}

} // verus!
