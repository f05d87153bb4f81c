use vstd::prelude::*;
use vstd::string::StrSliceExecFns;
use vstd::string::StringExecFns;

use crate::chars::{
    chars_to_string, char_subrange, dec_str, escape_chars, escape_group, is_word_char,
    is_word_char_exec, spec_escape_group, spec_escape_string, to_char_vec, usize_to_string,
    push_char,
};
use crate::types::{
    container_models, Container, ContainerModel, Options, OptionsModel, Token, TokenModel,
};

verus! {

// ---------------------------------------------------------------------------
// The template grammar.
//
// A template is scanned left to right.  At each position the scanner
// recognizes, in priority order: an escaped character `\X`, which contributes
// the bare `X` to the pending literal text; or a parameter marker, which is
// `:word`, optionally followed by a parenthesized capture pattern, or a bare
// parenthesized capture pattern, either optionally followed by one of the
// modifiers `+`, `*`, `?`.  A word is a run of ASCII letters, digits and
// underscores.  A capture pattern body is one or more units, each either an
// escape pair `\X` or a single character other than `\`, `(` and `)`.
// Anything else is literal text.
// ---------------------------------------------------------------------------

pub open spec fn is_modifier(c: char) -> bool {
    c == '+' || c == '*' || c == '?'
}

/// The end of the maximal run of word characters starting at `p`.
pub open spec fn word_end(t: Seq<char>, p: int) -> int
    decreases t.len() - p,
{
    if 0 <= p < t.len() && is_word_char(t[p]) {
        word_end(t, p + 1)
    } else {
        p
    }
}

/// The end of the maximal run of capture-pattern units starting at `p`.
pub open spec fn unit_end(t: Seq<char>, p: int) -> int
    decreases t.len() - p,
{
    if 0 <= p < t.len() {
        if t[p] == '\\' {
            if p + 1 < t.len() {
                unit_end(t, p + 2)
            } else {
                p
            }
        } else if t[p] != '(' && t[p] != ')' {
            unit_end(t, p + 1)
        } else {
            p
        }
    } else {
        p
    }
}

/// The parenthesized capture-pattern group starting at `p` (where `t[p]` is
/// `(`): its body and the position just past the closing `)`.
pub open spec fn group_at(t: Seq<char>, p: int) -> Option<(Seq<char>, int)> {
    let e = unit_end(t, p + 1);
    if e > p + 1 && e < t.len() && t[e] == ')' {
        Some((t.subrange(p + 1, e), e + 1))
    } else {
        None
    }
}

/// A parameter marker recognized in a template: its explicit name (empty when
/// unnamed), its explicit capture pattern if one was supplied, its modifier if
/// one was supplied, and the position just past the whole marker.
pub struct ParamMatch {
    pub name: Seq<char>,
    pub rawpat: Option<Seq<char>>,
    pub modifier: Option<char>,
    pub end: int,
}

/// The parameter marker starting at position `p` of `t`, if any.
pub open spec fn param_at(t: Seq<char>, p: int) -> Option<ParamMatch> {
    if p < 0 || p >= t.len() {
        None
    } else if t[p] == ':' {
        let we = word_end(t, p + 1);
        if we <= p + 1 {
            None
        } else {
            let gr = if we < t.len() && t[we] == '(' {
                group_at(t, we)
            } else {
                None
            };
            let q = match gr {
                Some(be) => be.1,
                None => we,
            };
            let md = if q < t.len() && is_modifier(t[q]) {
                Some(t[q])
            } else {
                None
            };
            Some(
                ParamMatch {
                    name: t.subrange(p + 1, we),
                    rawpat: match gr {
                        Some(be) => Some(be.0),
                        None => None,
                    },
                    modifier: md,
                    end: if md is Some {
                        q + 1
                    } else {
                        q
                    },
                },
            )
        }
    } else if t[p] == '(' {
        match group_at(t, p) {
            Some(be) => {
                let md = if be.1 < t.len() && is_modifier(t[be.1]) {
                    Some(t[be.1])
                } else {
                    None
                };
                Some(
                    ParamMatch {
                        name: Seq::empty(),
                        rawpat: Some(be.0),
                        modifier: md,
                        end: if md is Some {
                            be.1 + 1
                        } else {
                            be.1
                        },
                    },
                )
            },
            None => None,
        }
    } else {
        None
    }
}

// ---------------------------------------------------------------------------
// The scan itself.
// ---------------------------------------------------------------------------

/// Whether `c` is one of the whitelisted prefix characters.
pub open spec fn in_whitelist(wl: Seq<Seq<char>>, c: char) -> bool {
    exists|j: int| 0 <= j < wl.len() && wl[j] == seq![c]
}

/// Split a candidate prefix character off the pending literal text.  A
/// character qualifies only when the text was not just escaped and a
/// non-empty whitelist names it; an empty whitelist admits no prefix.
pub open spec fn prefix_split(pending: Seq<char>, escaped: bool, wl: Seq<Seq<char>>) -> (Seq<
    char,
>, Seq<char>) {
    if !escaped && pending.len() > 0 && wl.len() > 0 && in_whitelist(wl, pending.last()) {
        (seq![pending.last()], pending.drop_last())
    } else {
        (Seq::empty(), pending)
    }
}

/// The synthesized pattern for a parameter without an explicit capture
/// pattern: one or more characters excluding the effective delimiter set,
/// matched lazily.
pub open spec fn default_pattern(delimiter: char, default_delimiter: char) -> Seq<char> {
    seq!['[', '^'] + spec_escape_string(
        if delimiter == default_delimiter {
            seq![delimiter]
        } else {
            seq![delimiter, default_delimiter]
        },
    ) + seq![']', '+', '?']
}

/// The parameter token built for marker `pm` with absorbed prefix `prev`,
/// when `key` unnamed parameters have been assigned so far.
pub open spec fn make_token(pm: ParamMatch, prev: Seq<char>, key: nat, opt: OptionsModel) -> TokenModel {
    let delimiter = if prev.len() > 0 {
        prev[0]
    } else {
        opt.delimiter
    };
    TokenModel {
        name: if pm.name.len() > 0 {
            pm.name
        } else {
            dec_str(key)
        },
        prefix: prev,
        delimiter: delimiter,
        optional: pm.modifier == Some('?') || pm.modifier == Some('*'),
        repeat: pm.modifier == Some('+') || pm.modifier == Some('*'),
        pattern: match pm.rawpat {
            Some(rp) => spec_escape_group(rp),
            None => default_pattern(delimiter, opt.delimiter),
        },
    }
}

/// The segments produced by scanning `t` from position `p` onward, with
/// pending literal text `pending`, escape flag `escaped`, and `key` unnamed
/// parameters assigned so far.
pub open spec fn scan_from(
    t: Seq<char>,
    opt: OptionsModel,
    p: int,
    pending: Seq<char>,
    escaped: bool,
    key: nat,
) -> Seq<ContainerModel>
    decreases t.len() - p,
{
    if p < 0 || p >= t.len() {
        if pending.len() > 0 {
            seq![ContainerModel { token: None, path: pending }]
        } else {
            Seq::empty()
        }
    } else if t[p] == '\\' && p + 1 < t.len() {
        scan_from(t, opt, p + 2, pending.push(t[p + 1]), true, key)
    } else {
        match param_at(t, p) {
            None => scan_from(t, opt, p + 1, pending.push(t[p]), escaped, key),
            Some(pm) => {
                if p < pm.end && pm.end <= t.len() {
                    let ps = prefix_split(pending, escaped, opt.whitelist);
                    let lit: Seq<ContainerModel> = if ps.1.len() > 0 {
                        seq![ContainerModel { token: None, path: ps.1 }]
                    } else {
                        Seq::empty()
                    };
                    let esc2 = if ps.1.len() > 0 {
                        false
                    } else {
                        escaped
                    };
                    let tok = make_token(pm, ps.0, key, opt);
                    let key2: nat = if pm.name.len() > 0 {
                        key
                    } else {
                        key + 1
                    };
                    lit + seq![ContainerModel { token: Some(tok), path: Seq::empty() }]
                        + scan_from(t, opt, pm.end, Seq::empty(), esc2, key2)
                } else {
                    Seq::empty()
                }
            },
        }
    }
}

/// The segments of template `t` under options `opt`: the mathematical
/// specification of `parse`.
pub open spec fn spec_parse(t: Seq<char>, opt: OptionsModel) -> Seq<ContainerModel> {
    scan_from(t, opt, 0, Seq::empty(), false, 0)
}

/// The names of the parameter tokens in a segment sequence, in order.
pub open spec fn param_names(segs: Seq<ContainerModel>) -> Seq<Seq<char>>
    decreases segs.len(),
{
    if segs.len() == 0 {
        Seq::empty()
    } else {
        (match segs[0].token {
            Some(tok) => seq![tok.name],
            None => Seq::empty(),
        }) + param_names(segs.drop_first())
    }
}

/// The names that the grammar assigns to the parameter markers of `t` from
/// position `p` on: a marker's own word if it has one, else the decimal
/// representation of an auto-incrementing zero-based counter that starts at
/// `key` and advances only on unnamed markers.
pub open spec fn marker_names(t: Seq<char>, p: int, key: nat) -> Seq<Seq<char>>
    decreases t.len() - p,
{
    if p < 0 || p >= t.len() {
        Seq::empty()
    } else if t[p] == '\\' && p + 1 < t.len() {
        marker_names(t, p + 2, key)
    } else {
        match param_at(t, p) {
            None => marker_names(t, p + 1, key),
            Some(pm) => {
                if p < pm.end && pm.end <= t.len() {
                    if pm.name.len() > 0 {
                        seq![pm.name] + marker_names(t, pm.end, key)
                    } else {
                        seq![dec_str(key)] + marker_names(t, pm.end, key + 1)
                    }
                } else {
                    Seq::empty()
                }
            },
        }
    }
}

// ---------------------------------------------------------------------------
// Executable scanner.
// ---------------------------------------------------------------------------

pub(crate) struct PmExec {
    pub name: Vec<char>,
    pub rawpat: Option<Vec<char>>,
    pub modifier: Option<char>,
    pub end: usize,
}

pub(crate) open spec fn pm_of(pe: PmExec) -> ParamMatch {
    ParamMatch {
        name: pe.name@,
        rawpat: match pe.rawpat {
            Some(v) => Some(v@),
            None => None,
        },
        modifier: pe.modifier,
        end: pe.end as int,
    }
}

fn word_end_exec(t: &Vec<char>, p: usize) -> (r: usize)
    requires
        p <= t@.len(),
    ensures
        r == word_end(t@, p as int),
        p <= r <= t@.len(),
    decreases t@.len() - p,
{
    if p < t.len() && is_word_char_exec(t[p]) {
        word_end_exec(t, p + 1)
    } else {
        p
    }
}

fn unit_end_exec(t: &Vec<char>, p: usize) -> (r: usize)
    requires
        p <= t@.len(),
    ensures
        r == unit_end(t@, p as int),
        p <= r <= t@.len(),
    decreases t@.len() - p,
{
    if p >= t.len() {
        p
    } else if t[p] == '\\' {
        if p + 1 < t.len() {
            unit_end_exec(t, p + 2)
        } else {
            p
        }
    } else if t[p] != '(' && t[p] != ')' {
        unit_end_exec(t, p + 1)
    } else {
        p
    }
}

fn group_at_exec(t: &Vec<char>, p: usize) -> (r: Option<(Vec<char>, usize)>)
    requires
        p < t@.len(),
    ensures
        match r {
            Some(be) => group_at(t@, p as int) == Some((be.0@, be.1 as int)) && p + 3 <= be.1
                <= t@.len(),
            None => group_at(t@, p as int) is None,
        },
{
    let n = t.len();
    let e = unit_end_exec(t, p + 1);
    if e > p + 1 && e < n && t[e] == ')' {
        let body = char_subrange(t, p + 1, e);
        Some((body, e + 1))
    } else {
        None
    }
}

fn is_modifier_exec(c: char) -> (r: bool)
    ensures
        r == is_modifier(c),
{
    c == '+' || c == '*' || c == '?'
}

fn param_at_exec(t: &Vec<char>, p: usize) -> (r: Option<PmExec>)
    requires
        p < t@.len(),
    ensures
        match r {
            Some(pe) => param_at(t@, p as int) == Some(pm_of(pe)) && p + 2 <= pe.end <= t@.len()
                && (pe.name@.len() == 0 ==> p + 3 <= pe.end),
            None => param_at(t@, p as int) is None,
        },
{
    let n = t.len();
    let c = t[p];
    if c == ':' {
        let we = word_end_exec(t, p + 1);
        if we <= p + 1 {
            None
        } else {
            let name = char_subrange(t, p + 1, we);
            let gr: Option<(Vec<char>, usize)> = if we < t.len() && t[we] == '(' {
                group_at_exec(t, we)
            } else {
                None
            };
            let (rawpat, q): (Option<Vec<char>>, usize) = match gr {
                Some(be) => (Some(be.0), be.1),
                None => (None, we),
            };
            let md: Option<char> = if q < t.len() && is_modifier_exec(t[q]) {
                Some(t[q])
            } else {
                None
            };
            let end = if md.is_some() {
                q + 1
            } else {
                q
            };
            let pe = PmExec { name, rawpat, modifier: md, end };
            proof {
                assert(param_at(t@, p as int) == Some(pm_of(pe)));
            }
            Some(pe)
        }
    } else if c == '(' {
        match group_at_exec(t, p) {
            Some(be) => {
                let md: Option<char> = if be.1 < t.len() && is_modifier_exec(t[be.1]) {
                    Some(t[be.1])
                } else {
                    None
                };
                let end = if md.is_some() {
                    be.1 + 1
                } else {
                    be.1
                };
                let pe = PmExec { name: Vec::new(), rawpat: Some(be.0), modifier: md, end };
                proof {
                    assert(pm_of(pe).name =~= Seq::<char>::empty());
                    assert(param_at(t@, p as int) == Some(pm_of(pe)));
                }
                Some(pe)
            },
            None => None,
        }
    } else {
        None
    }
}

fn whitelist_has(wl: &Vec<String>, c: char) -> (r: bool)
    ensures
        r == in_whitelist(wl.deep_view(), c),
{
    let mut i: usize = 0;
    while i < wl.len()
        invariant
            i <= wl@.len(),
            forall|j: int| 0 <= j < i ==> wl.deep_view()[j] != seq![c],
        decreases wl@.len() - i,
    {
        let w = &wl[i];
        if w.as_str().unicode_len() == 1 && w.as_str().get_char(0) == c {
            proof {
                assert(wl.deep_view()[i as int] =~= seq![c]);
            }
            return true;
        }
        proof {
            if wl.deep_view()[i as int] == seq![c] {
                assert(wl@[i as int]@.len() == 1 && wl@[i as int]@[0] == c);
            }
        }
        i = i + 1;
    }
    false
}

fn make_token_exec(pe: &PmExec, prev: &Vec<char>, key: usize, options: &Options) -> (r: Token)
    ensures
        r@ == make_token(pm_of(*pe), prev@, key as nat, options@),
{
    let delimiter = if prev.len() > 0 {
        prev[0]
    } else {
        options.delimiter
    };
    let name = if pe.name.len() > 0 {
        chars_to_string(&pe.name)
    } else {
        usize_to_string(key)
    };
    let pattern = match &pe.rawpat {
        Some(rp) => escape_group(chars_to_string(rp)),
        None => {
            let mut ds: Vec<char> = Vec::new();
            ds.push(delimiter);
            if delimiter != options.delimiter {
                ds.push(options.delimiter);
            }
            let mut pat = String::new();
            push_char(&mut pat, '[');
            push_char(&mut pat, '^');
            pat.append(escape_chars(&ds).as_str());
            push_char(&mut pat, ']');
            push_char(&mut pat, '+');
            push_char(&mut pat, '?');
            proof {
                if delimiter == options@.delimiter {
                    assert(ds@ =~= seq![delimiter]);
                } else {
                    assert(ds@ =~= seq![delimiter, options@.delimiter]);
                }
                assert(pat@ =~= default_pattern(delimiter, options@.delimiter));
            }
            pat
        },
    };
    let (optional, repeat): (bool, bool) = match &pe.modifier {
        Some(m) => (*m == '?' || *m == '*', *m == '+' || *m == '*'),
        None => (false, false),
    };
    Token {
        name,
        prefix: chars_to_string(prev),
        delimiter,
        optional,
        repeat,
        pattern,
    }
}

fn scan_exec(
    t: &Vec<char>,
    options: &Options,
    p: usize,
    pending: Vec<char>,
    escaped: bool,
    key: usize,
) -> (r: Vec<Container>)
    requires
        p <= t@.len(),
        3 * key <= p,
    ensures
        container_models(r@) == scan_from(t@, options@, p as int, pending@, escaped, key as nat),
    decreases t@.len() - p,
{
    if p == t.len() {
        let mut r: Vec<Container> = Vec::new();
        if pending.len() > 0 {
            r.push(Container { token: None, path: chars_to_string(&pending) });
        }
        proof {
            assert(container_models(r@) =~= scan_from(
                t@,
                options@,
                p as int,
                pending@,
                escaped,
                key as nat,
            ));
        }
        r
    } else if t[p] == '\\' && p + 1 < t.len() {
        let mut pend2 = pending;
        pend2.push(t[p + 1]);
        scan_exec(t, options, p + 2, pend2, true, key)
    } else {
        match param_at_exec(t, p) {
            None => {
                let mut pend2 = pending;
                pend2.push(t[p]);
                scan_exec(t, options, p + 1, pend2, escaped, key)
            },
            Some(pe) => {
                let ghost pm = pm_of(pe);
                let mut prev: Vec<char> = Vec::new();
                let mut pend2 = pending;
                if !escaped && pend2.len() > 0 && options.whitelist.len() > 0 {
                    let c = pend2[pend2.len() - 1];
                    if whitelist_has(&options.whitelist, c) {
                        prev.push(c);
                        pend2.pop();
                    }
                }
                proof {
                    assert(options@.whitelist.len() == options.whitelist@.len());
                    assert((prev@, pend2@) == prefix_split(pending@, escaped, options@.whitelist)) by {
                        let psx = prefix_split(pending@, escaped, options@.whitelist);
                        if !escaped && pending@.len() > 0 && options@.whitelist.len() > 0
                            && in_whitelist(options@.whitelist, pending@.last()) {
                            assert(prev@ =~= psx.0);
                            assert(pend2@ =~= psx.1);
                        } else {
                            assert(prev@ =~= psx.0);
                            assert(pend2@ =~= psx.1);
                        }
                    }
                }
                let flushed = pend2.len() > 0;
                let esc2 = if flushed {
                    false
                } else {
                    escaped
                };
                let tok = make_token_exec(&pe, &prev, key, options);
                let key2 = if pe.name.len() > 0 {
                    key
                } else {
                    key + 1
                };
                let mut r: Vec<Container> = Vec::new();
                if flushed {
                    r.push(Container { token: None, path: chars_to_string(&pend2) });
                }
                r.push(Container { token: Some(tok), path: String::new() });
                let ghost head = r@;
                let mut rest = scan_exec(t, options, pe.end, Vec::new(), esc2, key2);
                let ghost rest_view = rest@;
                r.append(&mut rest);
                proof {
                    assert(r@ =~= head + rest_view);
                    let ps = prefix_split(pending@, escaped, options@.whitelist);
                    let lit: Seq<ContainerModel> = if ps.1.len() > 0 {
                        seq![ContainerModel { token: None, path: ps.1 }]
                    } else {
                        Seq::empty()
                    };
                    assert(container_models(r@) =~= lit + seq![
                        ContainerModel { token: Some(make_token(pm, ps.0, key as nat, options@)), path: Seq::<char>::empty() },
                    ] + scan_from(t@, options@, pe.end as int, Seq::<char>::empty(), esc2, key2 as nat));
                }
                r
            },
        }
    }
}

/// Tokenize a template into an ordered sequence of segments: literal text
/// runs and parameter tokens, exactly as `spec_parse` describes.  A template
/// without recognizable parameter or escape syntax yields a single literal
/// segment (or nothing when the template is empty).  Parameter names are
/// ASCII words (letters, digits and `_`); any other character ends the name.
pub fn parse(text: &str, options: Options) -> (r: Vec<Container>)
    ensures
        container_models(r@) == spec_parse(text@, options@),
{
    let t = to_char_vec(text);
    scan_exec(&t, &options, 0, Vec::new(), false, 0)
}

} // verus!

