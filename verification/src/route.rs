use vstd::prelude::*;
use vstd::string::StrSliceExecFns;
use vstd::string::StringExecFns;

use crate::chars::{escape_chars, escape_string, push_char, spec_escape_string};
use crate::types::{container_models, Container, ContainerModel, Options, OptionsModel, Token, TokenModel};

verus! {

/// The pattern fragment emitted for one parameter token: its capture pattern,
/// wrapped in a delimiter-separated repetition when the token repeats, inside
/// exactly one capturing group.
///
/// When the token is optional and has a non-empty prefix, the emitted group
/// wraps only the value and the prefix is dropped; when it is optional with
/// an empty prefix, the whole prefix-and-value unit is optional.  This
/// asymmetry is part of the compiled-pattern contract and is pinned by a
/// test.
pub open spec fn token_source(tok: TokenModel) -> Seq<char> {
    let capture: Seq<char> = if tok.repeat {
        seq!['(', '?', ':'] + tok.pattern + seq![')'] + seq!['(', '?', ':']
            + spec_escape_string(seq![tok.delimiter]) + seq!['(', '?', ':'] + tok.pattern + seq![
            ')',
            ')',
            '*',
        ]
    } else {
        tok.pattern
    };
    if tok.optional {
        if tok.prefix.len() > 0 {
            seq!['('] + capture + seq![')']
        } else {
            seq!['(', '?', ':'] + spec_escape_string(tok.prefix) + seq!['('] + capture + seq![
                ')',
                ')',
                '?',
            ]
        }
    } else {
        spec_escape_string(tok.prefix) + seq!['('] + capture + seq![')']
    }
}

/// The pattern fragment emitted for one segment: escaped literal text, or the
/// token's fragment.  An ill-formed segment with neither text nor token
/// contributes nothing.
pub open spec fn seg_source(c: ContainerModel) -> Seq<char> {
    if c.path.len() > 0 {
        spec_escape_string(c.path)
    } else {
        match c.token {
            Some(tok) => token_source(tok),
            None => Seq::empty(),
        }
    }
}

/// The concatenation of the fragments of all segments, in order.
pub open spec fn body_source(segs: Seq<ContainerModel>) -> Seq<char>
    decreases segs.len(),
{
    if segs.len() == 0 {
        Seq::empty()
    } else {
        body_source(segs.drop_last()) + seg_source(segs.last())
    }
}

/// The alternation of the escaped `ends_with` terminators, closed by `$`.
pub open spec fn ends_with_source(list: Seq<Seq<char>>) -> Seq<char>
    decreases list.len(),
{
    if list.len() == 0 {
        seq!['$']
    } else {
        spec_escape_string(list[0]) + seq!['|'] + ends_with_source(list.drop_first())
    }
}

/// Whether the segment sequence already ends in a delimiter: no boundary
/// lookahead is needed after it.  An empty sequence and a literal whose final
/// character is the delimiter count as end-delimited; any other literal, and
/// a trailing parameter, do not.
pub open spec fn is_end_delimited(segs: Seq<ContainerModel>, delimiter: char) -> bool {
    segs.len() == 0 || (segs.last().path.len() > 0 && segs.last().path.last() == delimiter)
}

/// The trailing anchor fragment of the compiled pattern.
pub open spec fn tail_source(segs: Seq<ContainerModel>, opt: OptionsModel) -> Seq<char> {
    let d = spec_escape_string(seq![opt.delimiter]);
    let ew = ends_with_source(opt.ends_with);
    if opt.end {
        (if !opt.strict {
            seq!['(', '?', ':'] + d + seq![')', '?']
        } else {
            Seq::empty()
        }) + (if opt.ends_with.len() == 0 {
            seq!['$']
        } else {
            seq!['(', '?', '='] + ew + seq![')']
        })
    } else {
        (if !opt.strict {
            seq!['(', '?', ':'] + d + seq!['(', '?', '='] + ew + seq![')', ')', '?']
        } else {
            Seq::empty()
        }) + (if !is_end_delimited(segs, opt.delimiter) {
            seq!['(', '?', '='] + d + seq!['|'] + ew + seq![')']
        } else {
            Seq::empty()
        })
    }
}

/// The case-insensitivity wrapper: the inline flag `(?i)` is prepended unless
/// matching is case-sensitive.
pub open spec fn spec_flags(route: Seq<char>, sensitive: bool) -> Seq<char> {
    if !sensitive {
        seq!['(', '?', 'i', ')'] + route
    } else {
        route
    }
}

/// The whole compiled pattern for a segment sequence under the given options:
/// the mathematical specification of `to_pattern_source`.
pub open spec fn pattern_source(segs: Seq<ContainerModel>, opt: OptionsModel) -> Seq<char> {
    spec_flags(
        (if opt.start {
            seq!['^']
        } else {
            Seq::<char>::empty()
        }) + body_source(segs) + tail_source(segs, opt),
        opt.sensitive,
    )
}

/// Wrap a pattern with the flags called for by the options: `(?i)` unless
/// matching is case-sensitive.
pub fn flags(route: &str, options: Options) -> (r: String)
    ensures
        r@ == spec_flags(route@, options@.sensitive),
{
    if !options.sensitive {
        let mut r = String::new();
        push_char(&mut r, '(');
        push_char(&mut r, '?');
        push_char(&mut r, 'i');
        push_char(&mut r, ')');
        r.append(route);
        proof {
            assert(r@ =~= spec_flags(route@, options@.sensitive));
        }
        r
    } else {
        let r = String::from_str(route);
        r
    }
}

fn esc_delimiter(d: char) -> (r: String)
    ensures
        r@ == spec_escape_string(seq![d]),
{
    let mut dv: Vec<char> = Vec::new();
    dv.push(d);
    proof {
        assert(dv@ =~= seq![d]);
    }
    escape_chars(&dv)
}

fn ends_with_join(options: &Options) -> (r: String)
    ensures
        r@ == ends_with_source(options@.ends_with),
{
    let ghost list = options@.ends_with;
    let mut r = String::new();
    let mut i: usize = 0;
    proof {
        assert(list.skip(0) =~= list);
        assert(list.len() == options.ends_with@.len());
    }
    while i < options.ends_with.len()
        invariant
            i <= options.ends_with@.len(),
            list == options@.ends_with,
            list.len() == options.ends_with@.len(),
            ends_with_source(list) == r@ + ends_with_source(list.skip(i as int)),
        decreases options.ends_with@.len() - i,
    {
        let e = escape_string(options.ends_with[i].clone());
        r.append(e.as_str());
        push_char(&mut r, '|');
        proof {
            assert(list.skip(i as int).drop_first() =~= list.skip(i + 1));
            assert(list.skip(i as int)[0] == list[i as int]);
            assert(options.ends_with@[i as int].deep_view() == list[i as int]);
        }
        i = i + 1;
    }
    push_char(&mut r, '$');
    proof {
        assert(list.skip(list.len() as int) =~= Seq::<Seq<char>>::empty());
        assert(r@ =~= ends_with_source(list));
    }
    r
}

fn token_source_exec(tok: &Token) -> (r: String)
    ensures
        r@ == token_source(tok@),
{
    let mut capture = String::new();
    if tok.repeat {
        push_char(&mut capture, '(');
        push_char(&mut capture, '?');
        push_char(&mut capture, ':');
        capture.append(tok.pattern.as_str());
        push_char(&mut capture, ')');
        push_char(&mut capture, '(');
        push_char(&mut capture, '?');
        push_char(&mut capture, ':');
        let d = esc_delimiter(tok.delimiter);
        capture.append(d.as_str());
        push_char(&mut capture, '(');
        push_char(&mut capture, '?');
        push_char(&mut capture, ':');
        capture.append(tok.pattern.as_str());
        push_char(&mut capture, ')');
        push_char(&mut capture, ')');
        push_char(&mut capture, '*');
    } else {
        capture.append(tok.pattern.as_str());
    }
    let ghost cap_spec: Seq<char> = if tok@.repeat {
        seq!['(', '?', ':'] + tok@.pattern + seq![')'] + seq!['(', '?', ':'] + spec_escape_string(
            seq![tok@.delimiter],
        ) + seq!['(', '?', ':'] + tok@.pattern + seq![')', ')', '*']
    } else {
        tok@.pattern
    };
    proof {
        assert(capture@ =~= cap_spec);
    }
    let mut r = String::new();
    if tok.optional {
        if !tok.prefix.as_str().is_empty() {
            push_char(&mut r, '(');
            r.append(capture.as_str());
            push_char(&mut r, ')');
        } else {
            push_char(&mut r, '(');
            push_char(&mut r, '?');
            push_char(&mut r, ':');
            let p = escape_string(tok.prefix.clone());
            r.append(p.as_str());
            push_char(&mut r, '(');
            r.append(capture.as_str());
            push_char(&mut r, ')');
            push_char(&mut r, ')');
            push_char(&mut r, '?');
        }
    } else {
        let p = escape_string(tok.prefix.clone());
        r.append(p.as_str());
        push_char(&mut r, '(');
        r.append(capture.as_str());
        push_char(&mut r, ')');
    }
    proof {
        assert(r@ =~= token_source(tok@));
    }
    r
}

fn append_tail(route: &mut String, containers: &Vec<Container>, options: &Options)
    ensures
        final(route)@ == old(route)@ + tail_source(container_models(containers@), options@),
{
    let ghost segs = container_models(containers@);
    let ew = ends_with_join(options);
    let d = esc_delimiter(options.delimiter);
    let mut tail = String::new();
    if options.end {
        if !options.strict {
            push_char(&mut tail, '(');
            push_char(&mut tail, '?');
            push_char(&mut tail, ':');
            tail.append(d.as_str());
            push_char(&mut tail, ')');
            push_char(&mut tail, '?');
        }
        if options.ends_with.len() == 0 {
            push_char(&mut tail, '$');
        } else {
            push_char(&mut tail, '(');
            push_char(&mut tail, '?');
            push_char(&mut tail, '=');
            tail.append(ew.as_str());
            push_char(&mut tail, ')');
        }
        proof {
            assert(options@.ends_with.len() == options.ends_with@.len());
            assert(tail@ =~= tail_source(segs, options@));
        }
    } else {
        let end_delimited: bool = if containers.len() == 0 {
            true
        } else {
            let lc = &containers[containers.len() - 1];
            let n = lc.path.as_str().unicode_len();
            if n > 0 {
                lc.path.as_str().get_char(n - 1) == options.delimiter
            } else {
                false
            }
        };
        proof {
            assert(end_delimited == is_end_delimited(segs, options@.delimiter));
        }
        if !options.strict {
            push_char(&mut tail, '(');
            push_char(&mut tail, '?');
            push_char(&mut tail, ':');
            tail.append(d.as_str());
            push_char(&mut tail, '(');
            push_char(&mut tail, '?');
            push_char(&mut tail, '=');
            tail.append(ew.as_str());
            push_char(&mut tail, ')');
            push_char(&mut tail, ')');
            push_char(&mut tail, '?');
        }
        if !end_delimited {
            push_char(&mut tail, '(');
            push_char(&mut tail, '?');
            push_char(&mut tail, '=');
            tail.append(d.as_str());
            push_char(&mut tail, '|');
            tail.append(ew.as_str());
            push_char(&mut tail, ')');
        }
        proof {
            assert(tail@ =~= tail_source(segs, options@));
        }
    }
    route.append(tail.as_str());
}

/// Compile a segment sequence and options into the source text of a single
/// anchored regular expression with exactly one capturing group per parameter
/// segment, as `pattern_source` describes.
#[verifier::rlimit(100)]
pub fn to_pattern_source(containers: &Vec<Container>, options: &Options) -> (r: String)
    ensures
        r@ == pattern_source(container_models(containers@), options@),
{
    let ghost segs = container_models(containers@);
    let mut route = String::new();
    if options.start {
        push_char(&mut route, '^');
    }
    let ghost start_part: Seq<char> = if options@.start {
        seq!['^']
    } else {
        Seq::<char>::empty()
    };
    proof {
        assert(route@ =~= start_part);
        assert(segs.take(0) =~= Seq::<ContainerModel>::empty());
    }
    let mut i: usize = 0;
    while i < containers.len()
        invariant
            i <= containers@.len(),
            segs == container_models(containers@),
            segs.len() == containers@.len(),
            start_part == (if options@.start {
                seq!['^']
            } else {
                Seq::<char>::empty()
            }),
            route@ == start_part + body_source(segs.take(i as int)),
        decreases containers@.len() - i,
    {
        let c = &containers[i];
        if !c.path.as_str().is_empty() {
            let e = escape_string(c.path.clone());
            route.append(e.as_str());
        } else {
            match &c.token {
                Some(tok) => {
                    let ts = token_source_exec(tok);
                    route.append(ts.as_str());
                },
                None => {},
            }
        }
        proof {
            assert(segs.take(i + 1).drop_last() =~= segs.take(i as int));
            assert(segs.take(i + 1).last() == segs[i as int]);
            assert(segs[i as int] == containers@[i as int]@);
            assert(route@ =~= start_part + body_source(segs.take(i + 1)));
        }
        i = i + 1;
    }
    proof {
        assert(segs.take(segs.len() as int) =~= segs);
    }
    append_tail(&mut route, containers, options);
    proof {
        assert(route@ =~= start_part + body_source(segs) + tail_source(segs, options@));
    }
    if !options.sensitive {
        let mut r = String::new();
        push_char(&mut r, '(');
        push_char(&mut r, '?');
        push_char(&mut r, 'i');
        push_char(&mut r, ')');
        r.append(route.as_str());
        proof {
            assert(r@ =~= pattern_source(segs, options@));
        }
        r
    } else {
        route
    }
}

} // verus!
