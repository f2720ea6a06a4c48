//! Rule evaluation: selecting the configured rules that are not
//! exempted for this run, and turning the evaluation outcomes of
//! their expressions into the ordered failure list.
//!
//! The expression language is an outside capability: the caller
//! evaluates each selected rule's expression against the model and
//! hands the outcomes back, one per selected rule, in selection
//! order. Failure messages are emitted in configured rule order —
//! never reordered — and an expression that could not be evaluated
//! aborts the run with context naming the broken rule.

use vstd::prelude::*;

use crate::model::Rule;
use crate::model::ValidationError;
use crate::text::failure_message;
use crate::text::format_failure;

verus! {

/// The indices of the rules in `rules[i..]` whose names are not
/// exempted, in configured order.
pub open spec fn active_from(rules: Seq<Rule>, exempt: Set<Seq<char>>, i: int) -> Seq<int>
    decreases rules.len() - i,
{
    if i < 0 || i >= rules.len() {
        Seq::empty()
    } else if exempt.contains(rules[i].name@) {
        active_from(rules, exempt, i + 1)
    } else {
        seq![i] + active_from(rules, exempt, i + 1)
    }
}

/// The indices of the configured rules left to evaluate once the
/// exempted ones are excluded, in configured order.
pub open spec fn spec_active_indices(rules: Seq<Rule>, exempt: Set<Seq<char>>) -> Seq<int> {
    active_from(rules, exempt, 0)
}

fn contains_name(names: &Vec<String>, name: &String) -> (b: bool)
    ensures
        b == names@.map_values(|s: String| s@).contains(name@),
{
    let ghost nv = names@.map_values(|s: String| s@);
    let mut i: usize = 0;
    while i < names.len()
        invariant
            i <= names@.len(),
            nv == names@.map_values(|s: String| s@),
            forall|j: int| 0 <= j < i ==> nv[j] != name@,
        decreases names@.len() - i,
    {
        if names[i].eq(name) {
            proof {
                assert(nv[i as int] == names@[i as int]@);
            }
            return true;
        }
        proof {
            assert(nv[i as int] == names@[i as int]@);
        }
        i = i + 1;
    }
    false
}

/// Selects the configured rules that are not exempted, by index and
/// in configured order.
pub fn active_indices(rules: &Vec<Rule>, exemptions: &Vec<String>) -> (r: Vec<usize>)
    ensures
        r@.map_values(|u: usize| u as int) == spec_active_indices(
            rules@,
            exemptions@.map_values(|s: String| s@).to_set(),
        ),
        forall|k: int| 0 <= k < r@.len() ==> r@[k] < rules@.len(),
{
    let ghost exempt = exemptions@.map_values(|s: String| s@).to_set();
    let mut out: Vec<usize> = Vec::new();
    let mut i: usize = 0;
    while i < rules.len()
        invariant
            i <= rules@.len(),
            exempt == exemptions@.map_values(|s: String| s@).to_set(),
            out@.map_values(|u: usize| u as int) + active_from(rules@, exempt, i as int)
                == spec_active_indices(rules@, exempt),
            forall|k: int| 0 <= k < out@.len() ==> out@[k] < rules@.len(),
        decreases rules@.len() - i,
    {
        if !contains_name(exemptions, &rules[i].name) {
            proof {
                let pre = out@.map_values(|u: usize| u as int);
                assert(out@.push(i).map_values(|u: usize| u as int) =~= pre.push(i as int));
                assert(pre.push(i as int) + active_from(rules@, exempt, i + 1) =~= pre + (seq![
                    i as int,
                ] + active_from(rules@, exempt, i + 1)));
            }
            out.push(i);
        }
        i = i + 1;
    }
    proof {
        assert(out@.map_values(|u: usize| u as int) + active_from(rules@, exempt, rules@.len() as int)
            =~= out@.map_values(|u: usize| u as int));
    }
    out
}

/// The failure messages produced by the outcomes `results[k..]` of
/// the selected rules `active[k..]`: one message per rule whose
/// expression evaluated to false, in selection order.
pub open spec fn failure_list_from(
    rules: Seq<Rule>,
    active: Seq<int>,
    results: Seq<Result<bool, String>>,
    k: int,
) -> Seq<Seq<char>>
    decreases active.len() - k,
{
    if k < 0 || k >= active.len() {
        Seq::empty()
    } else {
        let rest = failure_list_from(rules, active, results, k + 1);
        if results[k] is Ok && !results[k]->Ok_0 {
            seq![failure_message(rules[active[k]].name@, rules[active[k]].description@)] + rest
        } else {
            rest
        }
    }
}

/// The failure messages of a whole run, in configured rule order.
pub open spec fn spec_failures(
    rules: Seq<Rule>,
    active: Seq<int>,
    results: Seq<Result<bool, String>>,
) -> Seq<Seq<char>> {
    failure_list_from(rules, active, results, 0)
}

/// Collects the failure list from the evaluation outcomes of the
/// selected rules: an outcome of `false` appends that rule's failure
/// message; the first outcome that is an evaluation error, in
/// selection order, aborts the run with context naming the rule and
/// the repository `owner/repo`.
pub fn collect_failures(
    rules: &Vec<Rule>,
    active: &Vec<usize>,
    results: &Vec<Result<bool, String>>,
    owner: &str,
    repo: &str,
) -> (r: Result<Vec<String>, ValidationError>)
    requires
        active@.len() == results@.len(),
        forall|k: int| 0 <= k < active@.len() ==> active@[k] < rules@.len(),
    ensures
        r is Ok ==> {
            &&& forall|k: int| 0 <= k < results@.len() ==> results@[k] is Ok
            &&& r->Ok_0@.map_values(|s: String| s@) == spec_failures(
                rules@,
                active@.map_values(|u: usize| u as int),
                results@,
            )
        },
        r is Err ==> exists|k: int|
            {
                &&& 0 <= k < results@.len()
                &&& results@[k] is Err
                &&& (forall|j: int| 0 <= j < k ==> results@[j] is Ok)
                &&& (r->Err_0 matches ValidationError::Expression {
                    rule: er,
                    owner: eo,
                    repo: ep,
                    reason: en,
                } && er@ == rules@[active@[k] as int].name@ && eo@ == owner@ && ep@ == repo@ && en@
                    == results@[k]->Err_0@)
            },
{
    let ghost av = active@.map_values(|u: usize| u as int);
    let mut out: Vec<String> = Vec::new();
    let mut k: usize = 0;
    while k < active.len()
        invariant
            active@.len() == results@.len(),
            forall|j: int| 0 <= j < active@.len() ==> active@[j] < rules@.len(),
            k <= active@.len(),
            av == active@.map_values(|u: usize| u as int),
            forall|j: int| 0 <= j < k ==> results@[j] is Ok,
            out@.map_values(|s: String| s@) + failure_list_from(rules@, av, results@, k as int)
                == spec_failures(rules@, av, results@),
        decreases active@.len() - k,
    {
        let idx = active[k];
        match &results[k] {
            Ok(passed) => {
                if !*passed {
                    let msg = format_failure(rules[idx].name.as_str(), rules[idx].description.as_str());
                    proof {
                        let pre = out@.map_values(|s: String| s@);
                        assert(out@.push(msg).map_values(|s: String| s@) =~= pre.push(msg@));
                        assert(pre.push(msg@) + failure_list_from(rules@, av, results@, k + 1)
                            =~= pre + (seq![
                            failure_message(rules@[av[k as int]].name@, rules@[av[k as int]].description@),
                        ] + failure_list_from(rules@, av, results@, k + 1)));
                    }
                    out.push(msg);
                }
            },
            Err(reason) => {
                return Err(ValidationError::Expression {
                    rule: rules[idx].name.clone(),
                    owner: owner.to_owned(),
                    repo: repo.to_owned(),
                    reason: reason.clone(),
                });
            },
        }
        k = k + 1;
    }
    proof {
        assert(out@.map_values(|s: String| s@) + failure_list_from(rules@, av, results@, av.len() as int)
            =~= out@.map_values(|s: String| s@));
    }
    Ok(out)
}

/// The entries of `s` are strictly increasing.
pub open spec fn sorted_strict(s: Seq<int>) -> bool {
    forall|a: int, b: int| 0 <= a < b < s.len() ==> s[a] < s[b]
}

proof fn lemma_no_failures_from(
    rules: Seq<Rule>,
    active: Seq<int>,
    results: Seq<Result<bool, String>>,
    k: int,
)
    requires
        active.len() == results.len(),
        forall|t: int| 0 <= t < results.len() ==> results[t] is Ok && results[t]->Ok_0,
        0 <= k,
    ensures
        failure_list_from(rules, active, results, k).len() == 0,
    decreases active.len() - k,
{
    if k < active.len() {
        lemma_no_failures_from(rules, active, results, k + 1);
    }
}

/// Law: when every evaluated rule's expression is true, the failure
/// list is empty.
pub proof fn lemma_all_true_no_failures(
    rules: Seq<Rule>,
    active: Seq<int>,
    results: Seq<Result<bool, String>>,
)
    requires
        active.len() == results.len(),
        forall|t: int| 0 <= t < results.len() ==> results[t] is Ok && results[t]->Ok_0,
    ensures
        spec_failures(rules, active, results) == Seq::<Seq<char>>::empty(),
{
    lemma_no_failures_from(rules, active, results, 0);
    assert(spec_failures(rules, active, results) =~= Seq::<Seq<char>>::empty());
}

/// The rule indices, among the selected `active[k..]`, whose
/// expressions evaluated to false, in selection order.
pub open spec fn failing_from(
    active: Seq<int>,
    results: Seq<Result<bool, String>>,
    k: int,
) -> Seq<int>
    decreases active.len() - k,
{
    if k < 0 || k >= active.len() {
        Seq::empty()
    } else {
        let rest = failing_from(active, results, k + 1);
        if results[k] is Ok && !results[k]->Ok_0 {
            seq![active[k]] + rest
        } else {
            rest
        }
    }
}

/// The rule indices of a run whose expressions evaluated to false.
pub open spec fn spec_failing(active: Seq<int>, results: Seq<Result<bool, String>>) -> Seq<int> {
    failing_from(active, results, 0)
}

proof fn lemma_failures_map_from(
    rules: Seq<Rule>,
    active: Seq<int>,
    results: Seq<Result<bool, String>>,
    k: int,
)
    ensures
        failure_list_from(rules, active, results, k) == failing_from(active, results, k).map_values(
            |i: int| failure_message(rules[i].name@, rules[i].description@),
        ),
    decreases active.len() - k,
{
    let f = |i: int| failure_message(rules[i].name@, rules[i].description@);
    if k < 0 || k >= active.len() {
        assert(failing_from(active, results, k).map_values(f) =~= Seq::<Seq<char>>::empty());
    } else {
        lemma_failures_map_from(rules, active, results, k + 1);
        let rest = failing_from(active, results, k + 1);
        if results[k] is Ok && !results[k]->Ok_0 {
            assert((seq![active[k]] + rest).map_values(f) =~= seq![f(active[k])] + rest.map_values(
                f,
            ));
        }
    }
}

proof fn lemma_failing_elements(active: Seq<int>, results: Seq<Result<bool, String>>, k: int)
    requires
        0 <= k,
        sorted_strict(active),
    ensures
        sorted_strict(failing_from(active, results, k)),
        forall|t: int|
            0 <= t < failing_from(active, results, k).len() ==> exists|j: int|
                k <= j < active.len() && #[trigger] failing_from(active, results, k)[t]
                    == active[j],
    decreases active.len() - k,
{
    if k < active.len() {
        lemma_failing_elements(active, results, k + 1);
        let rest = failing_from(active, results, k + 1);
        if results[k] is Ok && !results[k]->Ok_0 {
            let whole = seq![active[k]] + rest;
            assert forall|t: int| 0 <= t < whole.len() implies exists|j: int|
                k <= j < active.len() && #[trigger] whole[t] == active[j] by {
                if t == 0 {
                    assert(k <= k < active.len() && whole[0] == active[k]);
                } else {
                    let j = choose|j: int| k + 1 <= j < active.len() && rest[t - 1] == active[j];
                    assert(k <= j < active.len() && whole[t] == active[j]);
                }
            }
            assert forall|a: int, b: int| 0 <= a < b < whole.len() implies whole[a] < whole[b] by {
                if a == 0 {
                    let j = choose|j: int| k + 1 <= j < active.len() && rest[b - 1] == active[j];
                    assert(active[k] < active[j]);
                } else {
                    assert(rest[a - 1] < rest[b - 1]);
                }
            }
        }
    }
}

proof fn lemma_active_elements(rules: Seq<Rule>, exempt: Set<Seq<char>>, i: int)
    requires
        0 <= i,
    ensures
        sorted_strict(active_from(rules, exempt, i)),
        forall|t: int|
            0 <= t < active_from(rules, exempt, i).len() ==> i <= #[trigger] active_from(
                rules,
                exempt,
                i,
            )[t] < rules.len() && !exempt.contains(rules[active_from(rules, exempt, i)[t]].name@),
    decreases rules.len() - i,
{
    if i < rules.len() {
        lemma_active_elements(rules, exempt, i + 1);
        let rest = active_from(rules, exempt, i + 1);
        if !exempt.contains(rules[i].name@) {
            let whole = seq![i] + rest;
            assert forall|a: int, b: int| 0 <= a < b < whole.len() implies whole[a] < whole[b] by {
                if a > 0 {
                    assert(rest[a - 1] < rest[b - 1]);
                }
            }
        }
    }
}

proof fn lemma_active_contains_from(rules: Seq<Rule>, exempt: Set<Seq<char>>, i: int, j: int)
    requires
        0 <= i,
    ensures
        active_from(rules, exempt, i).contains(j) <==> i <= j < rules.len() && !exempt.contains(
            rules[j].name@,
        ),
    decreases rules.len() - i,
{
    if i < rules.len() {
        lemma_active_contains_from(rules, exempt, i + 1, j);
        let rest = active_from(rules, exempt, i + 1);
        if !exempt.contains(rules[i].name@) {
            let whole = seq![i] + rest;
            if whole.contains(j) {
                let t = choose|t: int| 0 <= t < whole.len() && whole[t] == j;
                if t > 0 {
                    assert(rest[t - 1] == j);
                    assert(rest.contains(j));
                }
            }
            if i == j {
                assert(whole[0] == j);
                assert(whole.contains(j));
            }
            if rest.contains(j) {
                let t = choose|t: int| 0 <= t < rest.len() && rest[t] == j;
                assert(whole[t + 1] == j);
                assert(whole.contains(j));
            }
        }
    }
}

/// Law: a configured rule is evaluated if and only if its name is not
/// exempted; an exempted name suppresses exactly the rules bearing it.
pub proof fn lemma_active_membership(rules: Seq<Rule>, exempt: Set<Seq<char>>, j: int)
    ensures
        spec_active_indices(rules, exempt).contains(j) <==> 0 <= j < rules.len()
            && !exempt.contains(rules[j].name@),
{
    lemma_active_contains_from(rules, exempt, 0, j);
}

/// Law: an exempted name that matches no configured rule's name has
/// no effect on which rules are evaluated.
pub proof fn lemma_unmatched_exemption_harmless(
    rules: Seq<Rule>,
    exempt: Set<Seq<char>>,
    name: Seq<char>,
)
    requires
        forall|i: int| 0 <= i < rules.len() ==> rules[i].name@ != name,
    ensures
        spec_active_indices(rules, exempt.insert(name)) == spec_active_indices(rules, exempt),
{
    lemma_unmatched_from(rules, exempt, name, 0);
}

proof fn lemma_unmatched_from(rules: Seq<Rule>, exempt: Set<Seq<char>>, name: Seq<char>, i: int)
    requires
        forall|t: int| 0 <= t < rules.len() ==> rules[t].name@ != name,
        0 <= i,
    ensures
        active_from(rules, exempt.insert(name), i) == active_from(rules, exempt, i),
    decreases rules.len() - i,
{
    if i < rules.len() {
        lemma_unmatched_from(rules, exempt, name, i + 1);
    }
}

/// Law: the failure list is, in selection order, exactly the failure
/// messages of the rules whose expressions evaluated to false, and
/// the underlying rule indices are strictly increasing — failure
/// messages come in configured rule order, with the exempted rules
/// excluded.
pub proof fn lemma_failures_in_rule_order(
    rules: Seq<Rule>,
    exempt: Set<Seq<char>>,
    results: Seq<Result<bool, String>>,
)
    ensures
        spec_failures(rules, spec_active_indices(rules, exempt), results) == spec_failing(
            spec_active_indices(rules, exempt),
            results,
        ).map_values(|i: int| failure_message(rules[i].name@, rules[i].description@)),
        sorted_strict(spec_failing(spec_active_indices(rules, exempt), results)),
        forall|t: int|
            0 <= t < spec_failing(spec_active_indices(rules, exempt), results).len() ==> 0
                <= #[trigger] spec_failing(spec_active_indices(rules, exempt), results)[t]
                < rules.len() && !exempt.contains(
                rules[spec_failing(spec_active_indices(rules, exempt), results)[t]].name@,
            ),
{
    let active = spec_active_indices(rules, exempt);
    lemma_active_elements(rules, exempt, 0);
    lemma_failures_map_from(rules, active, results, 0);
    lemma_failing_elements(active, results, 0);
    assert forall|t: int| 0 <= t < spec_failing(active, results).len() implies 0
        <= #[trigger] spec_failing(active, results)[t] < rules.len() && !exempt.contains(
        rules[spec_failing(active, results)[t]].name@,
    ) by {
        let j = choose|j: int| 0 <= j < active.len() && spec_failing(active, results)[t]
            == active[j];
    }
}

} // verus!
