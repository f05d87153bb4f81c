use vstd::prelude::*;
use vstd::string::StrSliceExecFns;

use crate::rx::{captures_of, regex_captures};
use crate::types::{container_models, match_models, Container, ContainerModel, Match, MatchModel};

verus! {

/// The views of raw capture groups: each participating group's text, `None`
/// for a group that did not participate.
pub open spec fn group_views(g: Seq<Option<String>>) -> Seq<Option<Seq<char>>> {
    g.map_values(
        |o: Option<String>|
            match o {
                Some(s) => Some(s@),
                None => None,
            },
    )
}

/// The length of the whole match, group 0.
pub open spec fn full_match_len(groups: Seq<Option<Seq<char>>>) -> int {
    if groups.len() > 0 && groups[0] is Some {
        groups[0]->Some_0.len() as int
    } else {
        0
    }
}

/// The named matches recovered from capture groups `groups` and segments
/// `conts`, walking the segments from `ci` on with `gi` the capture-group
/// index of the next parameter segment.  A parameter segment is paired with
/// its group by position; it contributes a match exactly when that group
/// participated and its text is shorter or longer than the whole match.
pub open spec fn extract_from(
    groups: Seq<Option<Seq<char>>>,
    conts: Seq<ContainerModel>,
    ci: int,
    gi: int,
) -> Seq<MatchModel>
    decreases conts.len() - ci,
{
    if ci < 0 || ci >= conts.len() {
        Seq::empty()
    } else if conts[ci].path.len() > 0 {
        extract_from(groups, conts, ci + 1, gi)
    } else {
        let entry: Seq<MatchModel> = if 0 <= gi < groups.len() && groups[gi] is Some
            && groups[gi]->Some_0.len() != full_match_len(groups) && conts[ci].token is Some {
            seq![
                MatchModel {
                    name: conts[ci].token->Some_0.name,
                    value: groups[gi]->Some_0,
                },
            ]
        } else {
            Seq::empty()
        };
        entry + extract_from(groups, conts, ci + 1, gi + 1)
    }
}

/// The named matches recovered from capture groups and a segment sequence:
/// the mathematical specification of `extract_matches`.
pub open spec fn spec_extract(groups: Seq<Option<Seq<char>>>, conts: Seq<ContainerModel>) -> Seq<
    MatchModel,
> {
    extract_from(groups, conts, 0, 1)
}

/// A segment sequence without parameters yields no matches, whatever the
/// capture groups hold.
pub proof fn lemma_literal_extract_empty(
    groups: Seq<Option<Seq<char>>>,
    conts: Seq<ContainerModel>,
    ci: int,
    gi: int,
)
    requires
        forall|i: int| 0 <= i < conts.len() ==> conts[i].path.len() > 0,
    ensures
        extract_from(groups, conts, ci, gi).len() == 0,
    decreases conts.len() - ci,
{
    if 0 <= ci < conts.len() {
        lemma_literal_extract_empty(groups, conts, ci + 1, gi);
    }
}

/// Once the capture-group index has passed the last group, nothing further
/// is extracted.
pub proof fn lemma_groups_exhausted(
    groups: Seq<Option<Seq<char>>>,
    conts: Seq<ContainerModel>,
    ci: int,
    gi: int,
)
    requires
        gi >= groups.len(),
    ensures
        extract_from(groups, conts, ci, gi).len() == 0,
    decreases conts.len() - ci,
{
    if 0 <= ci < conts.len() {
        if conts[ci].path.len() > 0 {
            lemma_groups_exhausted(groups, conts, ci + 1, gi);
        } else {
            lemma_groups_exhausted(groups, conts, ci + 1, gi + 1);
        }
    }
}

/// Turn raw capture groups into named matches: walk the segments in order,
/// pairing the i-th parameter segment with capture group i + 1, and keep a
/// pair exactly when its group participated in the match and its text length
/// differs from the whole match's.
pub fn extract_matches(groups: &Vec<Option<String>>, containers: &Vec<Container>) -> (r: Vec<
    Match,
>)
    ensures
        match_models(r@) == spec_extract(group_views(groups@), container_models(containers@)),
{
    let ghost gv = group_views(groups@);
    let ghost cv = container_models(containers@);
    let full_len: usize = if groups.len() > 0 {
        match &groups[0] {
            Some(s) => s.as_str().unicode_len(),
            None => 0,
        }
    } else {
        0
    };
    proof {
        assert(full_len as int == full_match_len(gv));
    }
    let mut r: Vec<Match> = Vec::new();
    let mut ci: usize = 0;
    let mut gi: usize = 1;
    while ci < containers.len()
        invariant
            ci <= containers@.len(),
            1 <= gi <= ci + 1,
            gv == group_views(groups@),
            cv == container_models(containers@),
            cv.len() == containers@.len(),
            full_len as int == full_match_len(gv),
            gv.len() == groups@.len(),
            match_models(r@) + extract_from(gv, cv, ci as int, gi as int) == spec_extract(gv, cv),
        decreases containers@.len() - ci,
    {
        let c = &containers[ci];
        let ghost old_r = r@;
        if c.path.as_str().is_empty() {
            if gi < groups.len() {
                match (&groups[gi], &c.token) {
                    (Some(s), Some(tok)) => {
                        if s.as_str().unicode_len() != full_len {
                            r.push(Match { name: tok.name.clone(), value: s.clone() });
                        }
                    },
                    _ => {},
                }
                proof {
                    let entry: Seq<MatchModel> = if 0 <= gi < gv.len() && gv[gi as int] is Some
                        && gv[gi as int]->Some_0.len() != full_match_len(gv) && cv[ci as int].token
                        is Some {
                        seq![
                            MatchModel {
                                name: cv[ci as int].token->Some_0.name,
                                value: gv[gi as int]->Some_0,
                            },
                        ]
                    } else {
                        Seq::empty()
                    };
                    assert(match_models(r@) =~= match_models(old_r) + entry);
                    assert(extract_from(gv, cv, ci as int, gi as int) == entry + extract_from(
                        gv,
                        cv,
                        ci + 1,
                        gi + 1,
                    ));
                    assert(match_models(old_r) + (entry + extract_from(gv, cv, ci + 1, gi + 1))
                        =~= (match_models(old_r) + entry) + extract_from(gv, cv, ci + 1, gi + 1));
                }
                gi = gi + 1;
            } else {
                proof {
                    lemma_groups_exhausted(gv, cv, ci as int, gi as int);
                    lemma_groups_exhausted(gv, cv, ci + 1, gi as int);
                    lemma_groups_exhausted(gv, cv, ci + 1, (gi as int) + 1);
                    assert(extract_from(gv, cv, ci as int, gi as int) =~= extract_from(
                        gv,
                        cv,
                        ci + 1,
                        gi as int,
                    ));
                }
            }
        } else {
            proof {
                assert(extract_from(gv, cv, ci as int, gi as int) == extract_from(
                    gv,
                    cv,
                    ci + 1,
                    gi as int,
                ));
            }
        }
        ci = ci + 1;
    }
    proof {
        assert(extract_from(gv, cv, cv.len() as int, gi as int).len() == 0);
        assert(match_models(r@) =~= spec_extract(gv, cv));
    }
    r
}

/// Run a compiled regex against `text` and recover named parameter values by
/// capture-group position from the segment sequence.  The result is exactly
/// the extraction of the capture groups the engine reports for this regex
/// and text: empty when the regex does not match (or the engine errs), and
/// the paired names and values otherwise.  A segment sequence without
/// parameters always yields an empty result.
pub fn match_str(text: &str, regexp: fancy_regex::Regex, containers: Vec<Container>) -> (r: Vec<
    Match,
>)
    ensures
        match_models(r@) == (match captures_of(regexp, text@) {
            Some(g) => spec_extract(g, container_models(containers@)),
            None => Seq::<MatchModel>::empty(),
        }),
        (forall|i: int|
            0 <= i < containers@.len() ==> container_models(containers@)[i].path.len() > 0)
            ==> r@.len() == 0,
{
    let ghost cv = container_models(containers@);
    match regex_captures(&regexp, text) {
        Some(g) => {
            let r = extract_matches(&g, &containers);
            proof {
                let ghost gw = group_views(g@);
                assert(captures_of(regexp, text@) == Some(gw));
                assert(match_models(r@) == spec_extract(gw, cv));
                if forall|i: int| 0 <= i < containers@.len() ==> cv[i].path.len() > 0 {
                    lemma_literal_extract_empty(gw, cv, 0, 1);
                    assert(match_models(r@).len() == 0);
                }
            }
            r
        },
        None => {
            let r: Vec<Match> = Vec::new();
            proof {
                assert(captures_of(regexp, text@) is None);
                assert(match_models(r@) =~= Seq::<MatchModel>::empty());
            }
            r
        },
    }
}

} // verus!
