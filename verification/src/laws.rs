use vstd::prelude::*;

use crate::chars::{is_meta_char, spec_escape_string};
use crate::matching::{lemma_literal_extract_empty, spec_extract};
use crate::route::{
    body_source, ends_with_source, is_end_delimited, pattern_source, seg_source, tail_source,
    token_source,
};
use crate::scan::{default_pattern, marker_names, param_at, param_names, scan_from, spec_parse};
use crate::types::{wf_container, ContainerModel, OptionsModel, TokenModel};

verus! {

/// A pattern fragment in which every regex metacharacter stands escaped: the
/// fragment is a chain of units, each either a backslash followed by one
/// character or a single non-metacharacter.
pub open spec fn well_escaped(s: Seq<char>) -> bool
    decreases s.len(),
{
    if s.len() == 0 {
        true
    } else if s[0] == '\\' {
        s.len() >= 2 && well_escaped(s.skip(2))
    } else {
        !is_meta_char(s[0]) && well_escaped(s.skip(1))
    }
}

proof fn lemma_well_escaped_concat(a: Seq<char>, b: Seq<char>)
    requires
        well_escaped(a),
        well_escaped(b),
    ensures
        well_escaped(a + b),
    decreases a.len(),
{
    if a.len() == 0 {
        assert(a + b =~= b);
    } else if a[0] == '\\' {
        lemma_well_escaped_concat(a.skip(2), b);
        assert((a + b).skip(2) =~= a.skip(2) + b);
    } else {
        lemma_well_escaped_concat(a.skip(1), b);
        assert((a + b).skip(1) =~= a.skip(1) + b);
    }
}

/// Escaping a literal leaves no unescaped regex metacharacter: every
/// metacharacter of the escaped text sits right after a backslash, so a
/// literal segment in the compiled pattern matches only its own characters.
pub proof fn law_escape_string_well_escaped(s: Seq<char>)
    ensures
        well_escaped(spec_escape_string(s)),
    decreases s.len(),
{
    if s.len() > 0 {
        law_escape_string_well_escaped(s.drop_last());
        let unit: Seq<char> = if is_meta_char(s.last()) {
            seq!['\\', s.last()]
        } else {
            seq![s.last()]
        };
        assert(well_escaped(unit)) by {
            if is_meta_char(s.last()) {
                assert(unit[0] == '\\' && unit.len() == 2);
                assert(unit.skip(2) =~= Seq::<char>::empty());
                assert(well_escaped(unit.skip(2)));
            } else {
                assert(unit[0] == s.last() && unit.len() == 1);
                assert(unit.skip(1) =~= Seq::<char>::empty());
                assert(well_escaped(unit.skip(1)));
            }
        }
        lemma_well_escaped_concat(spec_escape_string(s.drop_last()), unit);
    }
}

proof fn lemma_scan_wf(
    t: Seq<char>,
    opt: OptionsModel,
    p: int,
    pending: Seq<char>,
    escaped: bool,
    key: nat,
)
    ensures
        forall|j: int|
            0 <= j < scan_from(t, opt, p, pending, escaped, key).len() ==> wf_container(
                #[trigger] scan_from(t, opt, p, pending, escaped, key)[j],
            ),
    decreases t.len() - p,
{
    let res = scan_from(t, opt, p, pending, escaped, key);
    if p < 0 || p >= t.len() {
        assert forall|j: int| 0 <= j < res.len() implies wf_container(res[j]) by {
            assert(pending.len() > 0 && res[j].path == pending && res[j].token is None);
        }
    } else if t[p] == '\\' && p + 1 < t.len() {
        lemma_scan_wf(t, opt, p + 2, pending.push(t[p + 1]), true, key);
        assert forall|j: int| 0 <= j < res.len() implies wf_container(res[j]) by {
            assert(res[j] == scan_from(t, opt, p + 2, pending.push(t[p + 1]), true, key)[j]);
        }
    } else {
        match param_at(t, p) {
            None => {
                lemma_scan_wf(t, opt, p + 1, pending.push(t[p]), escaped, key);
                assert forall|j: int| 0 <= j < res.len() implies wf_container(res[j]) by {
                    assert(res[j] == scan_from(t, opt, p + 1, pending.push(t[p]), escaped, key)[j]);
                }
            },
            Some(pm) => {
                if p < pm.end && pm.end <= t.len() {
                    let ps = crate::scan::prefix_split(pending, escaped, opt.whitelist);
                    let esc2 = if ps.1.len() > 0 {
                        false
                    } else {
                        escaped
                    };
                    let key2: nat = if pm.name.len() > 0 {
                        key
                    } else {
                        key + 1
                    };
                    lemma_scan_wf(t, opt, pm.end, Seq::empty(), esc2, key2);
                    let lit: Seq<ContainerModel> = if ps.1.len() > 0 {
                        seq![ContainerModel { token: None, path: ps.1 }]
                    } else {
                        Seq::empty()
                    };
                    let tokc = ContainerModel {
                        token: Some(crate::scan::make_token(pm, ps.0, key, opt)),
                        path: Seq::empty(),
                    };
                    let rest = scan_from(t, opt, pm.end, Seq::empty(), esc2, key2);
                    assert(res == lit + seq![tokc] + rest);
                    assert forall|j: int| 0 <= j < res.len() implies wf_container(res[j]) by {
                        if j < lit.len() {
                            assert(res[j] == lit[0]);
                        } else if j == lit.len() {
                            assert(res[j] == tokc);
                        } else {
                            assert(res[j] == rest[j - lit.len() - 1]);
                        }
                    }
                }
            },
        }
    }
}

/// Every segment the tokenizer yields is well formed: a literal holds
/// non-empty text and no token, and a parameter holds a token and no text.
pub proof fn law_parse_well_formed(t: Seq<char>, opt: OptionsModel)
    ensures
        forall|j: int|
            0 <= j < spec_parse(t, opt).len() ==> wf_container(#[trigger] spec_parse(t, opt)[j]),
{
    lemma_scan_wf(t, opt, 0, Seq::empty(), false, 0);
}

proof fn lemma_scan_literal_only(
    t: Seq<char>,
    opt: OptionsModel,
    p: int,
    pending: Seq<char>,
    escaped: bool,
    key: nat,
)
    requires
        forall|i: int| p <= i < t.len() ==> t[i] != ':' && t[i] != '(' && t[i] != '\\',
    ensures
        forall|j: int|
            0 <= j < scan_from(t, opt, p, pending, escaped, key).len()
                ==> (#[trigger] scan_from(t, opt, p, pending, escaped, key)[j]).path.len() > 0,
    decreases t.len() - p,
{
    if p < 0 || p >= t.len() {
    } else {
        assert(param_at(t, p) is None);
        lemma_scan_literal_only(t, opt, p + 1, pending.push(t[p]), escaped, key);
    }
}

proof fn lemma_param_names_concat(a: Seq<ContainerModel>, b: Seq<ContainerModel>)
    ensures
        param_names(a + b) == param_names(a) + param_names(b),
    decreases a.len(),
{
    if a.len() == 0 {
        assert(a + b =~= b);
        assert(param_names(a) + param_names(b) =~= param_names(b));
    } else {
        lemma_param_names_concat(a.drop_first(), b);
        assert((a + b).drop_first() =~= a.drop_first() + b);
        assert((a + b)[0] == a[0]);
        assert(param_names(a + b) =~= param_names(a) + param_names(b));
    }
}

proof fn lemma_scan_names(
    t: Seq<char>,
    opt: OptionsModel,
    p: int,
    pending: Seq<char>,
    escaped: bool,
    key: nat,
)
    ensures
        param_names(scan_from(t, opt, p, pending, escaped, key)) == marker_names(t, p, key),
    decreases t.len() - p,
{
    reveal_with_fuel(param_names, 3);
    let res = scan_from(t, opt, p, pending, escaped, key);
    if p < 0 || p >= t.len() {
        if pending.len() > 0 {
            assert(res[0].token is None);
            assert(res.drop_first() =~= Seq::<ContainerModel>::empty());
            assert(param_names(res) =~= Seq::<Seq<char>>::empty());
        }
    } else if t[p] == '\\' && p + 1 < t.len() {
        lemma_scan_names(t, opt, p + 2, pending.push(t[p + 1]), true, key);
    } else {
        match param_at(t, p) {
            None => {
                lemma_scan_names(t, opt, p + 1, pending.push(t[p]), escaped, key);
            },
            Some(pm) => {
                if p < pm.end && pm.end <= t.len() {
                    let ps = crate::scan::prefix_split(pending, escaped, opt.whitelist);
                    let esc2 = if ps.1.len() > 0 {
                        false
                    } else {
                        escaped
                    };
                    let key2: nat = if pm.name.len() > 0 {
                        key
                    } else {
                        key + 1
                    };
                    lemma_scan_names(t, opt, pm.end, Seq::empty(), esc2, key2);
                    let lit: Seq<ContainerModel> = if ps.1.len() > 0 {
                        seq![ContainerModel { token: None, path: ps.1 }]
                    } else {
                        Seq::empty()
                    };
                    let tok = crate::scan::make_token(pm, ps.0, key, opt);
                    let tokc = seq![ContainerModel { token: Some(tok), path: Seq::empty() }];
                    let rest = scan_from(t, opt, pm.end, Seq::empty(), esc2, key2);
                    lemma_param_names_concat(lit + tokc, rest);
                    lemma_param_names_concat(lit, tokc);
                    assert(param_names(lit) =~= Seq::<Seq<char>>::empty()) by {
                        if ps.1.len() > 0 {
                            assert(lit.drop_first() =~= Seq::<ContainerModel>::empty());
                        }
                    }
                    assert(param_names(tokc) =~= seq![tok.name]) by {
                        assert(tokc.drop_first() =~= Seq::<ContainerModel>::empty());
                    }
                    assert(param_names(res) =~= seq![tok.name] + marker_names(t, pm.end, key2));
                    assert(param_names(res) =~= marker_names(t, p, key));
                }
            },
        }
    }
}

/// Parameter names are assigned exactly as the grammar reads the template:
/// each named marker keeps its own word, and unnamed markers receive the
/// decimal representations of a zero-based counter that increases by one at
/// each unnamed marker, in order of appearance and untouched by literal
/// text, escapes, prefixes or named markers in between.
pub proof fn law_parse_names(t: Seq<char>, opt: OptionsModel)
    ensures
        param_names(spec_parse(t, opt)) == marker_names(t, 0, 0),
{
    lemma_scan_names(t, opt, 0, Seq::empty(), false, 0);
}

/// Round-trip safety of an all-literal template: tokenizing a template with
/// no parameter markers, capture groups or escapes yields literal segments
/// only, so executing its compiled pattern produces an empty parameter list,
/// whatever capture groups the engine reports.
pub proof fn law_literal_template_no_params(t: Seq<char>, opt: OptionsModel, g: Seq<Option<Seq<char>>>)
    requires
        forall|i: int| 0 <= i < t.len() ==> t[i] != ':' && t[i] != '(' && t[i] != '\\',
    ensures
        spec_extract(g, spec_parse(t, opt)).len() == 0,
{
    lemma_scan_literal_only(t, opt, 0, Seq::empty(), false, 0);
    lemma_literal_extract_empty(g, spec_parse(t, opt), 0, 1);
}


// ---------------------------------------------------------------------------
// Capturing-group accounting.
// ---------------------------------------------------------------------------

/// The number of capturing groups that a pattern source opens, read as the
/// regex lexer reads it: an escape pair `\X` is one literal, and an
/// unescaped `(` opens a capturing group unless `?` follows it.  (A `(`
/// inside a character class would still be counted; the law below keeps
/// such patterns out of scope through its premise.)
pub open spec fn cap_opens(s: Seq<char>) -> nat
    decreases s.len(),
{
    if s.len() == 0 {
        0
    } else if s[0] == '\\' {
        if s.len() >= 2 {
            cap_opens(s.skip(2))
        } else {
            0
        }
    } else if s[0] == '(' {
        if s.len() >= 2 && s[1] == '?' {
            cap_opens(s.skip(1))
        } else {
            1 + cap_opens(s.skip(1))
        }
    } else {
        cap_opens(s.skip(1))
    }
}

/// Every backslash in `s` starts a complete escape pair.
pub open spec fn no_dangling_escape(s: Seq<char>) -> bool
    decreases s.len(),
{
    if s.len() == 0 {
        true
    } else if s[0] == '\\' {
        s.len() >= 2 && no_dangling_escape(s.skip(2))
    } else {
        no_dangling_escape(s.skip(1))
    }
}

/// A capture pattern that opens no capturing group of its own, leaves no
/// escape dangling, and does not begin with `?` (which would corrupt the
/// group the compiler wraps around it).  Synthesized default patterns are
/// group-neutral; an escaped custom pattern is too, unless it held a
/// sequence such as the pair `\(`, whose per-character escaping yields an
/// escaped backslash followed by a bare group-open.
pub open spec fn group_neutral(p: Seq<char>) -> bool {
    cap_opens(p) == 0 && no_dangling_escape(p) && (p.len() > 0 ==> p[0] != '?')
}

/// The number of parameter segments in a sequence.
pub open spec fn param_count(segs: Seq<ContainerModel>) -> nat
    decreases segs.len(),
{
    if segs.len() == 0 {
        0
    } else {
        param_count(segs.drop_last()) + (if segs.last().path.len() == 0 && segs.last().token
            is Some {
            1nat
        } else {
            0nat
        })
    }
}

proof fn lemma_cap_opens_concat(a: Seq<char>, b: Seq<char>)
    requires
        no_dangling_escape(a),
        no_dangling_escape(b),
        !(a.len() > 0 && b.len() > 0 && a.last() == '(' && b[0] == '?'),
    ensures
        cap_opens(a + b) == cap_opens(a) + cap_opens(b),
        no_dangling_escape(a + b),
    decreases a.len(),
{
    reveal_with_fuel(cap_opens, 3);
    reveal_with_fuel(no_dangling_escape, 3);
    if a.len() == 0 {
        assert(a + b =~= b);
    } else if a[0] == '\\' {
        assert((a + b).skip(2) =~= a.skip(2) + b);
        if a.len() > 2 {
            assert(a.skip(2).last() == a.last());
        }
        lemma_cap_opens_concat(a.skip(2), b);
    } else if a[0] == '(' && a.len() == 1 {
        assert(a + b =~= seq!['('] + b);
        assert((a + b).skip(1) =~= b);
        if b.len() > 0 {
            assert((a + b)[1] == b[0]);
        }
        assert(a.skip(1) =~= Seq::<char>::empty());
        assert(cap_opens(a) == 1);
    } else {
        assert((a + b).skip(1) =~= a.skip(1) + b);
        assert(a.skip(1).len() > 0 ==> a.skip(1).last() == a.last());
        lemma_cap_opens_concat(a.skip(1), b);
    }
}

proof fn lemma_well_escaped_neutral(s: Seq<char>)
    requires
        well_escaped(s),
    ensures
        cap_opens(s) == 0,
        no_dangling_escape(s),
        s.len() > 0 ==> s[0] != '?' && s[0] != '(',
    decreases s.len(),
{
    if s.len() == 0 {
    } else if s[0] == '\\' {
        lemma_well_escaped_neutral(s.skip(2));
    } else {
        lemma_well_escaped_neutral(s.skip(1));
    }
}

proof fn lemma_plain_neutral(s: Seq<char>)
    requires
        forall|i: int| 0 <= i < s.len() ==> s[i] != '(' && s[i] != '\\',
    ensures
        cap_opens(s) == 0,
        no_dangling_escape(s),
    decreases s.len(),
{
    if s.len() > 0 {
        assert(forall|i: int| 0 <= i < s.skip(1).len() ==> s.skip(1)[i] == s[i + 1]);
        lemma_plain_neutral(s.skip(1));
    }
}

proof fn lemma_char_prefix(c: char, x: Seq<char>)
    requires
        c != '\\',
        c != '(',
        no_dangling_escape(x),
    ensures
        cap_opens(seq![c] + x) == cap_opens(x),
        no_dangling_escape(seq![c] + x),
{
    let s = seq![c] + x;
    assert(s[0] == c);
    assert(s.skip(1) =~= x);
}

proof fn lemma_nc_prefix(c: char, x: Seq<char>)
    requires
        c != '\\',
        c != '(',
        no_dangling_escape(x),
    ensures
        cap_opens(seq!['(', '?', c] + x) == cap_opens(x),
        no_dangling_escape(seq!['(', '?', c] + x),
{
    let s = seq!['(', '?', c] + x;
    assert(s[0] == '(' && s.len() >= 2 && s[1] == '?');
    assert(s.skip(1) =~= seq!['?', c] + x);
    lemma_char_prefix(c, x);
    lemma_char_prefix('?', seq![c] + x);
    assert((seq!['?', c] + x) =~= seq!['?'] + (seq![c] + x));
}

proof fn lemma_group_open(x: Seq<char>)
    requires
        no_dangling_escape(x),
        x.len() > 0 ==> x[0] != '?',
    ensures
        cap_opens(seq!['('] + x) == 1 + cap_opens(x),
        no_dangling_escape(seq!['('] + x),
{
    let s = seq!['('] + x;
    assert(s[0] == '(');
    if x.len() > 0 {
        assert(s[1] == x[0]);
    }
    assert(s.skip(1) =~= x);
}

proof fn lemma_token_source_one_group(tok: TokenModel)
    requires
        group_neutral(tok.pattern),
    ensures
        cap_opens(token_source(tok)) == 1,
        no_dangling_escape(token_source(tok)),
        token_source(tok).len() > 0,
        token_source(tok)[0] != '?',
{
    let p = tok.pattern;
    law_escape_string_well_escaped(seq![tok.delimiter]);
    let d = spec_escape_string(seq![tok.delimiter]);
    lemma_well_escaped_neutral(d);
    law_escape_string_well_escaped(tok.prefix);
    let e = spec_escape_string(tok.prefix);
    lemma_well_escaped_neutral(e);
    let cap: Seq<char> = if tok.repeat {
        seq!['(', '?', ':'] + p + seq![')'] + seq!['(', '?', ':'] + d + seq!['(', '?', ':'] + p
            + seq![')', ')', '*']
    } else {
        p
    };
    if tok.repeat {
        let r3 = seq![')', ')', '*'];
        lemma_plain_neutral(r3);
        lemma_cap_opens_concat(p, r3);
        let t3 = p + r3;
        lemma_nc_prefix(':', t3);
        let t2 = seq!['(', '?', ':'] + t3;
        lemma_cap_opens_concat(d, t2);
        let t1 = d + t2;
        lemma_nc_prefix(':', t1);
        let t0 = seq!['(', '?', ':'] + t1;
        lemma_char_prefix(')', t0);
        let tr = seq![')'] + t0;
        lemma_cap_opens_concat(p, tr);
        let tp = p + tr;
        lemma_nc_prefix(':', tp);
        assert(cap =~= seq!['(', '?', ':'] + tp);
        assert(cap_opens(cap) == 0 && no_dangling_escape(cap));
        assert(cap[0] == '(');
    }
    assert(cap.len() > 0 ==> cap[0] != '?');
    if tok.optional {
        if tok.prefix.len() > 0 {
            lemma_plain_neutral(seq![')']);
            lemma_cap_opens_concat(cap, seq![')']);
            lemma_group_open(cap + seq![')']);
            assert(token_source(tok) =~= seq!['('] + (cap + seq![')']));
        } else {
            let r = seq![')', ')', '?'];
            lemma_plain_neutral(r);
            lemma_cap_opens_concat(cap, r);
            lemma_group_open(cap + r);
            let g = seq!['('] + (cap + r);
            lemma_cap_opens_concat(e, g);
            lemma_nc_prefix(':', e + g);
            assert(token_source(tok) =~= seq!['(', '?', ':'] + (e + g));
        }
    } else {
        lemma_plain_neutral(seq![')']);
        lemma_cap_opens_concat(cap, seq![')']);
        lemma_group_open(cap + seq![')']);
        let g = seq!['('] + (cap + seq![')']);
        lemma_cap_opens_concat(e, g);
        assert(token_source(tok) =~= e + g);
        if e.len() > 0 {
            assert(token_source(tok)[0] == e[0]);
        }
    }
}

proof fn lemma_seg_source_groups(c: ContainerModel)
    requires
        c.path.len() == 0 && c.token is Some ==> group_neutral(c.token->Some_0.pattern),
    ensures
        cap_opens(seg_source(c)) == (if c.path.len() == 0 && c.token is Some {
            1nat
        } else {
            0nat
        }),
        no_dangling_escape(seg_source(c)),
        seg_source(c).len() > 0 ==> seg_source(c)[0] != '?',
{
    if c.path.len() > 0 {
        law_escape_string_well_escaped(c.path);
        lemma_well_escaped_neutral(spec_escape_string(c.path));
    } else {
        match c.token {
            Some(tok) => {
                lemma_token_source_one_group(tok);
            },
            None => {},
        }
    }
}

proof fn lemma_body_source_groups(segs: Seq<ContainerModel>)
    requires
        forall|i: int|
            0 <= i < segs.len() && (#[trigger] segs[i]).path.len() == 0 && segs[i].token is Some
                ==> group_neutral(segs[i].token->Some_0.pattern),
    ensures
        cap_opens(body_source(segs)) == param_count(segs),
        no_dangling_escape(body_source(segs)),
    decreases segs.len(),
{
    if segs.len() > 0 {
        assert(forall|i: int|
            0 <= i < segs.drop_last().len() ==> #[trigger] segs.drop_last()[i] == segs[i]);
        lemma_body_source_groups(segs.drop_last());
        lemma_seg_source_groups(segs.last());
        lemma_cap_opens_concat(body_source(segs.drop_last()), seg_source(segs.last()));
    }
}

proof fn lemma_ends_with_neutral(list: Seq<Seq<char>>)
    ensures
        cap_opens(ends_with_source(list)) == 0,
        no_dangling_escape(ends_with_source(list)),
        ends_with_source(list).len() > 0,
        ends_with_source(list)[0] != '?',
    decreases list.len(),
{
    if list.len() == 0 {
        lemma_plain_neutral(seq!['$']);
    } else {
        lemma_ends_with_neutral(list.drop_first());
        law_escape_string_well_escaped(list[0]);
        let e = spec_escape_string(list[0]);
        lemma_well_escaped_neutral(e);
        let rest = ends_with_source(list.drop_first());
        lemma_char_prefix('|', rest);
        lemma_cap_opens_concat(e, seq!['|'] + rest);
        assert(ends_with_source(list) =~= e + (seq!['|'] + rest));
        if e.len() > 0 {
            assert(ends_with_source(list)[0] == e[0]);
        }
    }
}

proof fn lemma_tail_source_neutral(segs: Seq<ContainerModel>, opt: OptionsModel)
    ensures
        cap_opens(tail_source(segs, opt)) == 0,
        no_dangling_escape(tail_source(segs, opt)),
        tail_source(segs, opt).len() > 0 ==> tail_source(segs, opt)[0] != '?',
{
    law_escape_string_well_escaped(seq![opt.delimiter]);
    let d = spec_escape_string(seq![opt.delimiter]);
    lemma_well_escaped_neutral(d);
    lemma_ends_with_neutral(opt.ends_with);
    let ew = ends_with_source(opt.ends_with);
    if opt.end {
        let first: Seq<char> = if !opt.strict {
            lemma_plain_neutral(seq![')', '?']);
            lemma_cap_opens_concat(d, seq![')', '?']);
            lemma_nc_prefix(':', d + seq![')', '?']);
            assert((seq!['(', '?', ':'] + d + seq![')', '?']) =~= seq!['(', '?', ':'] + (d + seq![
                ')',
                '?',
            ]));
            seq!['(', '?', ':'] + d + seq![')', '?']
        } else {
            Seq::<char>::empty()
        };
        let second: Seq<char> = if opt.ends_with.len() == 0 {
            lemma_plain_neutral(seq!['$']);
            seq!['$']
        } else {
            lemma_plain_neutral(seq![')']);
            lemma_cap_opens_concat(ew, seq![')']);
            lemma_nc_prefix('=', ew + seq![')']);
            assert((seq!['(', '?', '='] + ew + seq![')']) =~= seq!['(', '?', '='] + (ew + seq![
                ')',
            ]));
            seq!['(', '?', '='] + ew + seq![')']
        };
        lemma_cap_opens_concat(first, second);
        assert(tail_source(segs, opt) == first + second);
    } else {
        let first: Seq<char> = if !opt.strict {
            lemma_plain_neutral(seq![')', ')', '?']);
            lemma_cap_opens_concat(ew, seq![')', ')', '?']);
            lemma_nc_prefix('=', ew + seq![')', ')', '?']);
            let inner = seq!['(', '?', '='] + (ew + seq![')', ')', '?']);
            lemma_cap_opens_concat(d, inner);
            lemma_nc_prefix(':', d + inner);
            assert((seq!['(', '?', ':'] + d + seq!['(', '?', '='] + ew + seq![')', ')', '?'])
                =~= seq!['(', '?', ':'] + (d + inner));
            seq!['(', '?', ':'] + d + seq!['(', '?', '='] + ew + seq![')', ')', '?']
        } else {
            Seq::<char>::empty()
        };
        let second: Seq<char> = if !is_end_delimited(segs, opt.delimiter) {
            lemma_plain_neutral(seq![')']);
            lemma_cap_opens_concat(ew, seq![')']);
            lemma_char_prefix('|', ew + seq![')']);
            let inner = seq!['|'] + (ew + seq![')']);
            lemma_cap_opens_concat(d, inner);
            lemma_nc_prefix('=', d + inner);
            assert((seq!['(', '?', '='] + d + seq!['|'] + ew + seq![')']) =~= seq!['(', '?', '=']
                + (d + inner));
            seq!['(', '?', '='] + d + seq!['|'] + ew + seq![')']
        } else {
            Seq::<char>::empty()
        };
        lemma_cap_opens_concat(first, second);
        assert(tail_source(segs, opt) == first + second);
    }
}

/// The compiled pattern source opens exactly one capturing group per
/// parameter segment and none besides, counted as the regex lexer reads the
/// source.  The premise asks every parameter's capture pattern to be
/// group-neutral: the synthesized default patterns always are (see
/// `law_default_pattern_neutral`), and an escaped custom pattern is unless
/// its text makes the escaping emit a bare `(` (the pair `\(` does).
pub proof fn law_one_group_per_parameter(segs: Seq<ContainerModel>, opt: OptionsModel)
    requires
        forall|i: int|
            0 <= i < segs.len() && (#[trigger] segs[i]).path.len() == 0 && segs[i].token is Some
                ==> group_neutral(segs[i].token->Some_0.pattern),
    ensures
        cap_opens(pattern_source(segs, opt)) == param_count(segs),
{
    lemma_body_source_groups(segs);
    lemma_tail_source_neutral(segs, opt);
    let body = body_source(segs);
    let tail = tail_source(segs, opt);
    lemma_cap_opens_concat(body, tail);
    let start: Seq<char> = if opt.start {
        seq!['^']
    } else {
        Seq::<char>::empty()
    };
    lemma_plain_neutral(start);
    lemma_cap_opens_concat(start, body + tail);
    assert(start + body_source(segs) + tail_source(segs, opt) =~= start + (body + tail));
    let route = start + body_source(segs) + tail_source(segs, opt);
    if !opt.sensitive {
        lemma_char_prefix(')', route);
        lemma_char_prefix('i', seq![')'] + route);
        lemma_nc_prefix('i', route);
        assert(pattern_source(segs, opt) =~= seq!['(', '?', 'i'] + (seq![')'] + route));
        lemma_nc_prefix(')', route);
        assert(cap_opens(seq!['(', '?', 'i'] + (seq![')'] + route)) == cap_opens(route)) by {
            lemma_nc_prefix('i', seq![')'] + route);
        }
    }
}

/// A synthesized default pattern opens no capturing group of its own.
pub proof fn law_default_pattern_neutral(delimiter: char, default_delimiter: char)
    ensures
        group_neutral(default_pattern(delimiter, default_delimiter)),
{
    let set: Seq<char> = if delimiter == default_delimiter {
        seq![delimiter]
    } else {
        seq![delimiter, default_delimiter]
    };
    law_escape_string_well_escaped(set);
    let e = spec_escape_string(set);
    lemma_well_escaped_neutral(e);
    let r = seq![']', '+', '?'];
    lemma_plain_neutral(r);
    lemma_cap_opens_concat(e, r);
    lemma_char_prefix('^', e + r);
    lemma_char_prefix('[', seq!['^'] + (e + r));
    assert(default_pattern(delimiter, default_delimiter) =~= seq!['['] + (seq!['^'] + (e + r)));
    assert(default_pattern(delimiter, default_delimiter)[0] == '[');
}

} // verus!
