//! Exemption resolution: scanning the PR's comments, in platform
//! order, for disable directives, and granting an exemption for each
//! directive whose issuer holds admin permission on the repository.
//!
//! Authority is checked per directive, against the comment author,
//! never the PR author: different comments may come from different
//! authors with different permission levels. A lookup that cannot be
//! completed aborts the run, since an exemption claim must neither be
//! silently granted nor silently denied.

use vstd::prelude::*;

use crate::model::Comment;
use crate::model::FetchError;
use crate::model::Permission;
use crate::model::ValidationError;
use crate::text::directive_rule;
use crate::text::directive_rule_name;

verus! {

/// A disable directive found in a comment: the issuer's login, whose
/// authority is still to be checked, and the rule name the directive
/// asks to exempt.
pub struct Candidate {
    pub login: String,
    pub rule: String,
}

/// The mathematical content of a [`Candidate`].
pub ghost struct CandidateView {
    pub login: Seq<char>,
    pub rule: Seq<char>,
}

impl View for Candidate {
    type V = CandidateView;

    open spec fn view(&self) -> CandidateView {
        CandidateView { login: self.login@, rule: self.rule@ }
    }
}

/// The directives found in `comments[i..]`, in comment order: one
/// candidate per comment whose body holds a well-formed disable
/// directive.
pub open spec fn candidates_from(comments: Seq<Comment>, i: int) -> Seq<CandidateView>
    decreases comments.len() - i,
{
    if i < 0 || i >= comments.len() {
        Seq::empty()
    } else {
        let rest = candidates_from(comments, i + 1);
        match directive_rule(comments[i].body@) {
            Some(rule) => seq![CandidateView { login: comments[i].user.login@, rule }] + rest,
            None => rest,
        }
    }
}

/// The directives found in a PR's comment list, in comment order.
pub open spec fn spec_candidates(comments: Seq<Comment>) -> Seq<CandidateView> {
    candidates_from(comments, 0)
}

/// Scans the comments, in order, for disable directives. Comments
/// without the marker, and malformed directives (nothing or only
/// whitespace after the marker), yield no candidate.
pub fn disable_candidates(comments: &Vec<Comment>) -> (r: Vec<Candidate>)
    ensures
        r@.map_values(|c: Candidate| c@) == spec_candidates(comments@),
{
    let mut out: Vec<Candidate> = Vec::new();
    let mut i: usize = 0;
    while i < comments.len()
        invariant
            i <= comments@.len(),
            out@.map_values(|c: Candidate| c@) + candidates_from(comments@, i as int)
                == spec_candidates(comments@),
        decreases comments@.len() - i,
    {
        match directive_rule_name(comments[i].body.as_str()) {
            Some(rule) => {
                let cand = Candidate { login: comments[i].user.login.clone(), rule };
                proof {
                    let pre = out@.map_values(|c: Candidate| c@);
                    assert(out@.push(cand).map_values(|c: Candidate| c@) =~= pre.push(cand@));
                    assert(pre.push(cand@) + candidates_from(comments@, i + 1) =~= pre + (seq![
                        cand@,
                    ] + candidates_from(comments@, i + 1)));
                }
                out.push(cand);
            },
            None => {},
        }
        i = i + 1;
    }
    proof {
        assert(out@.map_values(|c: Candidate| c@) + candidates_from(comments@, comments@.len() as int)
            =~= out@.map_values(|c: Candidate| c@));
    }
    out
}

proof fn lemma_candidates_contains_from(comments: Seq<Comment>, i: int, c: CandidateView)
    requires
        0 <= i,
    ensures
        candidates_from(comments, i).contains(c) <==> exists|j: int|
            i <= j < comments.len() && directive_rule(comments[j].body@) == Some(c.rule)
                && comments[j].user.login@ == c.login,
    decreases comments.len() - i,
{
    if i < comments.len() {
        lemma_candidates_contains_from(comments, i + 1, c);
        let rest = candidates_from(comments, i + 1);
        match directive_rule(comments[i].body@) {
            Some(rule) => {
                let head = CandidateView { login: comments[i].user.login@, rule };
                let whole = seq![head] + rest;
                if whole.contains(c) {
                    let t = choose|t: int| 0 <= t < whole.len() && whole[t] == c;
                    if t == 0 {
                        assert(directive_rule(comments[i].body@) == Some(c.rule)
                            && comments[i].user.login@ == c.login);
                    } else {
                        assert(rest[t - 1] == c);
                        assert(rest.contains(c));
                    }
                }
                if head == c {
                    assert(whole[0] == c);
                    assert(whole.contains(c));
                }
                if rest.contains(c) {
                    let t = choose|t: int| 0 <= t < rest.len() && rest[t] == c;
                    assert(whole[t + 1] == c);
                    assert(whole.contains(c));
                }
            },
            None => {},
        }
    }
}

/// Law: the candidate list holds exactly one entry per comment whose
/// body names a rule through a well-formed disable directive, pairing
/// the comment author's login — whose authority is then checked, not
/// the PR author's — with the trimmed rule name.
pub proof fn lemma_candidate_membership(comments: Seq<Comment>, c: CandidateView)
    ensures
        spec_candidates(comments).contains(c) <==> exists|j: int|
            0 <= j < comments.len() && directive_rule(comments[j].body@) == Some(c.rule)
                && comments[j].user.login@ == c.login,
{
    lemma_candidates_contains_from(comments, 0, c);
}

/// The rule names granted by the directives in `cands[i..]`, in
/// directive order, keeping duplicates: the rule of each candidate
/// whose issuer's permission is `Admin`.
pub open spec fn exemption_list_from(
    cands: Seq<CandidateView>,
    perms: Seq<Permission>,
    i: int,
) -> Seq<Seq<char>>
    decreases cands.len() - i,
{
    if i < 0 || i >= cands.len() {
        Seq::empty()
    } else {
        let rest = exemption_list_from(cands, perms, i + 1);
        if perms[i] is Admin {
            seq![cands[i].rule] + rest
        } else {
            rest
        }
    }
}

/// The rule names granted by all directives, in directive order.
pub open spec fn spec_exemption_list(cands: Seq<CandidateView>, perms: Seq<Permission>) -> Seq<
    Seq<char>,
> {
    exemption_list_from(cands, perms, 0)
}

/// The exemption set of a run: the rule names granted by admin-issued
/// directives. Duplicates collapse; the set is recomputed fresh for
/// every run.
pub open spec fn spec_exemptions(cands: Seq<CandidateView>, perms: Seq<Permission>) -> Set<
    Seq<char>,
> {
    spec_exemption_list(cands, perms).to_set()
}

/// Grants an exemption for each candidate whose permission lookup
/// came back `Admin`; issuers at `Write`, `Read`, or `NoAccess` are
/// ignored. The first lookup that failed, in directive order, aborts
/// the run as an authority-check error.
pub fn grant_exemptions(
    cands: &Vec<Candidate>,
    perms: &Vec<Result<Permission, FetchError>>,
) -> (r: Result<Vec<String>, ValidationError>)
    requires
        cands@.len() == perms@.len(),
    ensures
        r is Ok ==> {
            &&& forall|i: int| 0 <= i < perms@.len() ==> perms@[i] is Ok
            &&& r->Ok_0@.map_values(|s: String| s@) == spec_exemption_list(
                cands@.map_values(|c: Candidate| c@),
                perms@.map_values(|p: Result<Permission, FetchError>| p->Ok_0),
            )
        },
        r is Err ==> exists|i: int|
            {
                &&& 0 <= i < perms@.len()
                &&& perms@[i] is Err
                &&& (forall|j: int| 0 <= j < i ==> perms@[j] is Ok)
                &&& r->Err_0 == ValidationError::AuthorityCheck(perms@[i]->Err_0)
            },
{
    let ghost cv = cands@.map_values(|c: Candidate| c@);
    let ghost pv = perms@.map_values(|p: Result<Permission, FetchError>| p->Ok_0);
    let mut out: Vec<String> = Vec::new();
    let mut i: usize = 0;
    while i < cands.len()
        invariant
            cands@.len() == perms@.len(),
            i <= cands@.len(),
            cv == cands@.map_values(|c: Candidate| c@),
            pv == perms@.map_values(|p: Result<Permission, FetchError>| p->Ok_0),
            forall|j: int| 0 <= j < i ==> perms@[j] is Ok,
            out@.map_values(|s: String| s@) + exemption_list_from(cv, pv, i as int)
                == spec_exemption_list(cv, pv),
        decreases cands@.len() - i,
    {
        match &perms[i] {
            Ok(p) => {
                if *p == Permission::Admin {
                    let name = cands[i].rule.clone();
                    proof {
                        let pre = out@.map_values(|s: String| s@);
                        assert(out@.push(name).map_values(|s: String| s@) =~= pre.push(name@));
                        assert(pre.push(name@) + exemption_list_from(cv, pv, i + 1) =~= pre + (seq![
                            cv[i as int].rule,
                        ] + exemption_list_from(cv, pv, i + 1)));
                    }
                    out.push(name);
                }
            },
            Err(e) => {
                return Err(ValidationError::AuthorityCheck(*e));
            },
        }
        i = i + 1;
    }
    proof {
        assert(out@.map_values(|s: String| s@) + exemption_list_from(cv, pv, cv.len() as int)
            =~= out@.map_values(|s: String| s@));
    }
    Ok(out)
}

proof fn lemma_exemption_list_membership(
    cands: Seq<CandidateView>,
    perms: Seq<Permission>,
    i: int,
    name: Seq<char>,
)
    requires
        cands.len() == perms.len(),
        0 <= i,
    ensures
        exemption_list_from(cands, perms, i).contains(name) <==> exists|j: int|
            i <= j < cands.len() && perms[j] is Admin && cands[j].rule == name,
    decreases cands.len() - i,
{
    if i < cands.len() {
        lemma_exemption_list_membership(cands, perms, i + 1, name);
        let rest = exemption_list_from(cands, perms, i + 1);
        if perms[i] is Admin {
            let whole = seq![cands[i].rule] + rest;
            if whole.contains(name) {
                let t = choose|t: int| 0 <= t < whole.len() && whole[t] == name;
                if t == 0 {
                    assert(i <= i < cands.len() && perms[i] is Admin && cands[i].rule == name);
                } else {
                    assert(rest[t - 1] == name);
                    assert(rest.contains(name));
                }
            }
            if cands[i].rule == name {
                assert(whole[0] == name);
                assert(whole.contains(name));
            }
            if rest.contains(name) {
                let t = choose|t: int| 0 <= t < rest.len() && rest[t] == name;
                assert(whole[t + 1] == name);
                assert(whole.contains(name));
            }
        }
    }
}

/// Law: the exemption set holds exactly the rule names that some
/// admin-issued disable directive names. Directives from issuers at
/// any other permission level grant nothing, and a granted name
/// affects no other rule name.
pub proof fn lemma_exemption_membership(
    cands: Seq<CandidateView>,
    perms: Seq<Permission>,
    name: Seq<char>,
)
    requires
        cands.len() == perms.len(),
    ensures
        spec_exemptions(cands, perms).contains(name) <==> exists|j: int|
            0 <= j < cands.len() && perms[j] is Admin && cands[j].rule == name,
{
    lemma_exemption_list_membership(cands, perms, 0, name);
}

/// Law: a disable directive whose issuer is not an admin has no
/// effect: the exemption set equals the one computed without that
/// directive.
pub proof fn lemma_non_admin_directive_ignored(
    cands: Seq<CandidateView>,
    perms: Seq<Permission>,
    i: int,
)
    requires
        cands.len() == perms.len(),
        0 <= i < cands.len(),
        !(perms[i] is Admin),
    ensures
        spec_exemptions(cands, perms) == spec_exemptions(cands.remove(i), perms.remove(i)),
{
    cands.remove_ensures(i);
    perms.remove_ensures(i);
    assert forall|name: Seq<char>|
        spec_exemptions(cands, perms).contains(name) == spec_exemptions(
            cands.remove(i),
            perms.remove(i),
        ).contains(name) by {
        lemma_exemption_membership(cands, perms, name);
        lemma_exemption_membership(cands.remove(i), perms.remove(i), name);
        if exists|j: int| 0 <= j < cands.len() && perms[j] is Admin && cands[j].rule == name {
            let j = choose|j: int| 0 <= j < cands.len() && perms[j] is Admin && cands[j].rule
                == name;
            let j2: int = if j < i {
                j
            } else {
                j - 1
            };
            assert(perms.remove(i)[j2] is Admin && cands.remove(i)[j2].rule == name);
        }
        if exists|j: int|
            0 <= j < cands.remove(i).len() && perms.remove(i)[j] is Admin && cands.remove(i)[j].rule
                == name {
            let j2 = choose|j: int|
                0 <= j < cands.remove(i).len() && perms.remove(i)[j] is Admin && cands.remove(
                    i,
                )[j].rule == name;
            let j: int = if j2 < i {
                j2
            } else {
                j2 + 1
            };
            assert(0 <= j < cands.len() && perms[j] is Admin && cands[j].rule == name);
        }
    }
    assert(spec_exemptions(cands, perms) =~= spec_exemptions(cands.remove(i), perms.remove(i)));
}

/// Law: duplicate disable directives for one rule name collapse:
/// removing an admin-issued directive whose rule name another
/// admin-issued directive also grants leaves the exemption set
/// unchanged.
pub proof fn lemma_duplicate_directive_ignored(
    cands: Seq<CandidateView>,
    perms: Seq<Permission>,
    i: int,
    j: int,
)
    requires
        cands.len() == perms.len(),
        0 <= i < cands.len(),
        0 <= j < cands.len(),
        i != j,
        perms[i] is Admin,
        perms[j] is Admin,
        cands[i].rule == cands[j].rule,
    ensures
        spec_exemptions(cands, perms) == spec_exemptions(cands.remove(i), perms.remove(i)),
{
    cands.remove_ensures(i);
    perms.remove_ensures(i);
    assert forall|name: Seq<char>|
        spec_exemptions(cands, perms).contains(name) == spec_exemptions(
            cands.remove(i),
            perms.remove(i),
        ).contains(name) by {
        lemma_exemption_membership(cands, perms, name);
        lemma_exemption_membership(cands.remove(i), perms.remove(i), name);
        if exists|k: int| 0 <= k < cands.len() && perms[k] is Admin && cands[k].rule == name {
            let k = choose|k: int| 0 <= k < cands.len() && perms[k] is Admin && cands[k].rule
                == name;
            let k0: int = if k != i {
                k
            } else {
                j
            };
            let k2: int = if k0 < i {
                k0
            } else {
                k0 - 1
            };
            assert(perms.remove(i)[k2] is Admin && cands.remove(i)[k2].rule == name);
        }
        if exists|k: int|
            0 <= k < cands.remove(i).len() && perms.remove(i)[k] is Admin && cands.remove(i)[k].rule
                == name {
            let k2 = choose|k: int|
                0 <= k < cands.remove(i).len() && perms.remove(i)[k] is Admin && cands.remove(
                    i,
                )[k].rule == name;
            let k: int = if k2 < i {
                k2
            } else {
                k2 + 1
            };
            assert(0 <= k < cands.len() && perms[k] is Admin && cands[k].rule == name);
        }
    }
    assert(spec_exemptions(cands, perms) =~= spec_exemptions(cands.remove(i), perms.remove(i)));
}

proof fn lemma_candidates_shift(comments: Seq<Comment>, i: int, k: int)
    requires
        0 <= i < comments.len(),
        i <= k <= comments.len() - 1,
    ensures
        candidates_from(comments.remove(i), k) == candidates_from(comments, k + 1),
    decreases comments.len() - 1 - k,
{
    comments.remove_ensures(i);
    if k < comments.len() - 1 {
        lemma_candidates_shift(comments, i, k + 1);
    }
}

proof fn lemma_candidates_prefix(comments: Seq<Comment>, i: int, k: int)
    requires
        0 <= k <= i < comments.len(),
        directive_rule(comments[i].body@) is None,
    ensures
        candidates_from(comments, k) == candidates_from(comments.remove(i), k),
    decreases i - k,
{
    comments.remove_ensures(i);
    if k == i {
        lemma_candidates_shift(comments, i, k);
    } else {
        lemma_candidates_prefix(comments, i, k + 1);
    }
}

/// Law: a comment without a well-formed disable directive — no
/// marker, or a malformed directive with nothing or only whitespace
/// after the marker — contributes no candidate: the candidate list is
/// the one computed without that comment, and in particular no
/// authority lookup is owed for it.
pub proof fn lemma_no_directive_no_candidate(comments: Seq<Comment>, i: int)
    requires
        0 <= i < comments.len(),
        directive_rule(comments[i].body@) is None,
    ensures
        spec_candidates(comments) == spec_candidates(comments.remove(i)),
{
    lemma_candidates_prefix(comments, i, 0);
}

} // verus!
