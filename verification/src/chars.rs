use vstd::prelude::*;
use vstd::string::StrSliceExecFns;

verus! {

/// Characters with special meaning in a regular expression; a literal run of
/// template text must have each of them escaped before it enters the compiled
/// pattern.
pub open spec fn is_meta_char(c: char) -> bool {
    c == '.' || c == '+' || c == '*' || c == '?' || c == '=' || c == '^' || c == '!' || c == ':'
        || c == '$' || c == '{' || c == '}' || c == '(' || c == ')' || c == '[' || c == ']'
        || c == '|' || c == '/' || c == '\\'
}

/// Characters with special meaning inside a capturing group; a caller-supplied
/// capture pattern has each of them escaped.
pub open spec fn is_group_meta_char(c: char) -> bool {
    c == '=' || c == '!' || c == ':' || c == '$' || c == '/' || c == '(' || c == ')'
}

/// Word characters, as recognized inside a `:name` parameter marker: ASCII
/// letters, digits and underscore.  This is part of the public contract:
/// parameter names are ASCII words, and any other character (including a
/// letter outside ASCII) ends the name.
pub open spec fn is_word_char(c: char) -> bool {
    ('a' <= c && c <= 'z') || ('A' <= c && c <= 'Z') || ('0' <= c && c <= '9') || c == '_'
}

/// `s` with every regex metacharacter preceded by a backslash.
pub open spec fn spec_escape_string(s: Seq<char>) -> Seq<char>
    decreases s.len(),
{
    if s.len() == 0 {
        Seq::empty()
    } else {
        spec_escape_string(s.drop_last()) + (if is_meta_char(s.last()) {
            seq!['\\', s.last()]
        } else {
            seq![s.last()]
        })
    }
}

/// `s` with every group metacharacter preceded by a backslash.
pub open spec fn spec_escape_group(s: Seq<char>) -> Seq<char>
    decreases s.len(),
{
    if s.len() == 0 {
        Seq::empty()
    } else {
        spec_escape_group(s.drop_last()) + (if is_group_meta_char(s.last()) {
            seq!['\\', s.last()]
        } else {
            seq![s.last()]
        })
    }
}

/// Relies on `String::push`: appends the given character at the end of the
/// string.
#[verifier::external_body]
pub(crate) fn push_char(s: &mut String, c: char)
    ensures
        final(s)@ == old(s)@.push(c),
{
    s.push(c);
}

/// The characters of `s`, in order.
pub(crate) fn to_char_vec(s: &str) -> (r: Vec<char>)
    ensures
        r@ == s@,
{
    let n = s.unicode_len();
    let mut r: Vec<char> = Vec::new();
    let mut i: usize = 0;
    while i < n
        invariant
            i <= n,
            n == s@.len(),
            r@ == s@.take(i as int),
        decreases n - i,
    {
        let c = s.get_char(i);
        r.push(c);
        proof {
            assert(s@.take(i + 1) =~= s@.take(i as int).push(s@[i as int]));
        }
        i = i + 1;
    }
    proof {
        assert(s@.take(n as int) =~= s@);
    }
    r
}

/// A string holding exactly the characters of `v`, in order.
pub(crate) fn chars_to_string(v: &Vec<char>) -> (r: String)
    ensures
        r@ == v@,
{
    let mut r = String::new();
    let mut i: usize = 0;
    while i < v.len()
        invariant
            i <= v@.len(),
            r@ == v@.take(i as int),
        decreases v@.len() - i,
    {
        push_char(&mut r, v[i]);
        proof {
            assert(v@.take(i + 1) =~= v@.take(i as int).push(v@[i as int]));
        }
        i = i + 1;
    }
    proof {
        assert(v@.take(v@.len() as int) =~= v@);
    }
    r
}

/// The characters of `s` in positions `from..to`.
pub(crate) fn char_subrange(s: &Vec<char>, from: usize, to: usize) -> (r: Vec<char>)
    requires
        from <= to <= s@.len(),
    ensures
        r@ == s@.subrange(from as int, to as int),
{
    let mut r: Vec<char> = Vec::new();
    let mut i: usize = from;
    while i < to
        invariant
            from <= i <= to <= s@.len(),
            r@ == s@.subrange(from as int, i as int),
        decreases to - i,
    {
        r.push(s[i]);
        proof {
            assert(s@.subrange(from as int, i + 1) =~= s@.subrange(from as int, i as int).push(
                s@[i as int],
            ));
        }
        i = i + 1;
    }
    r
}

fn is_meta_char_exec(c: char) -> (r: bool)
    ensures
        r == is_meta_char(c),
{
    c == '.' || c == '+' || c == '*' || c == '?' || c == '=' || c == '^' || c == '!' || c == ':'
        || c == '$' || c == '{' || c == '}' || c == '(' || c == ')' || c == '[' || c == ']'
        || c == '|' || c == '/' || c == '\\'
}

fn is_group_meta_char_exec(c: char) -> (r: bool)
    ensures
        r == is_group_meta_char(c),
{
    c == '=' || c == '!' || c == ':' || c == '$' || c == '/' || c == '(' || c == ')'
}

pub(crate) fn is_word_char_exec(c: char) -> (r: bool)
    ensures
        r == is_word_char(c),
{
    ('a' <= c && c <= 'z') || ('A' <= c && c <= 'Z') || ('0' <= c && c <= '9') || c == '_'
}

/// Escape a regular-expression string: every metacharacter in `string` comes
/// out preceded by a backslash, and all other characters are kept as they are.
pub fn escape_string(string: String) -> (r: String)
    ensures
        r@ == spec_escape_string(string@),
{
    let s = to_char_vec(string.as_str());
    escape_chars(&s)
}

pub(crate) fn escape_chars(s: &Vec<char>) -> (r: String)
    ensures
        r@ == spec_escape_string(s@),
{
    let mut r = String::new();
    let mut i: usize = 0;
    while i < s.len()
        invariant
            i <= s@.len(),
            r@ == spec_escape_string(s@.take(i as int)),
        decreases s@.len() - i,
    {
        let c = s[i];
        if is_meta_char_exec(c) {
            push_char(&mut r, '\\');
        }
        push_char(&mut r, c);
        proof {
            let t = s@.take(i + 1);
            assert(t.drop_last() =~= s@.take(i as int));
            assert(t.last() == s@[i as int]);
            if is_meta_char(s@[i as int]) {
                assert(r@ =~= spec_escape_string(s@.take(i as int)) + seq!['\\', s@[i as int]]);
            } else {
                assert(r@ =~= spec_escape_string(s@.take(i as int)) + seq![s@[i as int]]);
            }
        }
        i = i + 1;
    }
    proof {
        assert(s@.take(s@.len() as int) =~= s@);
    }
    r
}

/// Escape a capturing-group pattern: every character with special meaning
/// inside a capturing group comes out preceded by a backslash.
///
/// Escaping is per character, not escape-pair-aware: in a pattern that
/// already holds an escape pair such as `\(`, the backslash is kept and the
/// parenthesis is escaped on its own, so the pair becomes `\\(` — an escaped
/// backslash followed by a bare group-open.  Such a pattern adds a capturing
/// group of its own to the compiled source; the group-count law
/// (`law_one_group_per_parameter`) therefore asks each pattern to open no
/// group of its own.
pub fn escape_group(group: String) -> (r: String)
    ensures
        r@ == spec_escape_group(group@),
{
    let s = to_char_vec(group.as_str());
    let mut r = String::new();
    let mut i: usize = 0;
    while i < s.len()
        invariant
            i <= s@.len(),
            r@ == spec_escape_group(s@.take(i as int)),
        decreases s@.len() - i,
    {
        let c = s[i];
        if is_group_meta_char_exec(c) {
            push_char(&mut r, '\\');
        }
        push_char(&mut r, c);
        proof {
            let t = s@.take(i + 1);
            assert(t.drop_last() =~= s@.take(i as int));
            assert(t.last() == s@[i as int]);
            if is_group_meta_char(s@[i as int]) {
                assert(r@ =~= spec_escape_group(s@.take(i as int)) + seq!['\\', s@[i as int]]);
            } else {
                assert(r@ =~= spec_escape_group(s@.take(i as int)) + seq![s@[i as int]]);
            }
        }
        i = i + 1;
    }
    proof {
        assert(s@.take(s@.len() as int) =~= s@);
        assert(s@ == group@);
    }
    r
}

/// The decimal digit character for `d` (`d <= 9`).
pub open spec fn dec_digit(d: nat) -> char {
    (((48 + d) as u8) as char)
}

/// The decimal representation of `n`, most significant digit first.
pub open spec fn dec_str(n: nat) -> Seq<char>
    decreases n,
{
    if n < 10 {
        seq![dec_digit(n)]
    } else {
        dec_str(n / 10).push(dec_digit(n % 10))
    }
}

/// The decimal representation of `n` as a string.
pub(crate) fn usize_to_string(n: usize) -> (r: String)
    ensures
        r@ == dec_str(n as nat),
    decreases n,
{
    if n < 10 {
        let mut r = String::new();
        let d: u8 = 48 + (n as u8);
        push_char(&mut r, d as char);
        proof {
            assert(r@ =~= seq![dec_digit(n as nat)]);
        }
        r
    } else {
        let mut r = usize_to_string(n / 10);
        let d: u8 = 48 + ((n % 10) as u8);
        push_char(&mut r, d as char);
        r
    }
}

} // verus!
