//! Textual analysis of comment bodies: finding the disable-directive
//! marker, trimming the directive payload, and formatting the
//! human-readable messages the validator emits.
//!
//! A disable directive is a comment whose body contains the literal
//! phrase `tailor disable`; everything after the first occurrence of
//! that phrase, trimmed of surrounding whitespace, names the rule to
//! exempt. A directive with nothing (or only whitespace) after the
//! marker is malformed and names no rule.

use vstd::prelude::*;

verus! {

/// The literal phrase that introduces a disable directive.
pub open spec fn marker() -> Seq<char> {
    "tailor disable"@
}

/// The whitespace characters stripped from a directive payload: the
/// ASCII whitespace set.
pub open spec fn is_space(c: char) -> bool {
    c == ' ' || c == '\t' || c == '\n' || c == '\r' || c == '\u{b}' || c == '\u{c}'
}

fn is_space_char(c: char) -> (b: bool)
    ensures
        b == is_space(c),
{
    c == ' ' || c == '\t' || c == '\n' || c == '\r' || c == '\u{b}' || c == '\u{c}'
}

/// `s` begins with `pat`.
pub open spec fn starts_with(s: Seq<char>, pat: Seq<char>) -> bool {
    pat.len() <= s.len() && s.subrange(0, pat.len() as int) == pat
}

/// Everything after the first occurrence of the marker in `s`, or
/// `None` if the marker does not occur.
pub open spec fn tail_after_marker(s: Seq<char>) -> Option<Seq<char>>
    decreases s.len(),
{
    if starts_with(s, marker()) {
        Some(s.skip(marker().len() as int))
    } else if s.len() == 0 {
        None
    } else {
        tail_after_marker(s.skip(1))
    }
}

/// `s` without its leading whitespace.
pub open spec fn trim_start(s: Seq<char>) -> Seq<char>
    decreases s.len(),
{
    if s.len() > 0 && is_space(s[0]) {
        trim_start(s.skip(1))
    } else {
        s
    }
}

/// `s` without its trailing whitespace.
pub open spec fn trim_end(s: Seq<char>) -> Seq<char>
    decreases s.len(),
{
    if s.len() > 0 && is_space(s[s.len() - 1]) {
        trim_end(s.take(s.len() - 1))
    } else {
        s
    }
}

/// `s` without leading and trailing whitespace.
pub open spec fn trim(s: Seq<char>) -> Seq<char> {
    trim_end(trim_start(s))
}

/// The rule name a comment body's disable directive exempts: the
/// trimmed text after the first occurrence of the marker. `None` when
/// the marker is absent or the directive is malformed (nothing but
/// whitespace after the marker).
pub open spec fn directive_rule(body: Seq<char>) -> Option<Seq<char>> {
    match tail_after_marker(body) {
        Some(tail) => {
            let t = trim(tail);
            if t.len() == 0 {
                None
            } else {
                Some(t)
            }
        },
        None => None,
    }
}

/// If the first `a` characters of `s` are whitespace and the one at
/// `a`, if any, is not, trimming from the start drops exactly those
/// `a` characters.
proof fn lemma_trim_start_prefix(s: Seq<char>, a: int)
    requires
        0 <= a <= s.len(),
        forall|j: int| 0 <= j < a ==> is_space(s[j]),
        a == s.len() || !is_space(s[a]),
    ensures
        trim_start(s) == s.skip(a),
    decreases a,
{
    if a == 0 {
        assert(s.skip(0) =~= s);
    } else {
        lemma_trim_start_prefix(s.skip(1), a - 1);
        assert(s.skip(1).skip(a - 1) =~= s.skip(a));
    }
}

/// If the characters of `s` from `b` on are whitespace and the one
/// before `b`, if any, is not, trimming from the end keeps exactly the
/// first `b` characters.
proof fn lemma_trim_end_suffix(s: Seq<char>, b: int)
    requires
        0 <= b <= s.len(),
        forall|j: int| b <= j < s.len() ==> is_space(s[j]),
        b == 0 || !is_space(s[b - 1]),
    ensures
        trim_end(s) == s.take(b),
    decreases s.len() - b,
{
    if b == s.len() {
        assert(s.take(b) =~= s);
    } else {
        lemma_trim_end_suffix(s.take(s.len() - 1), b);
        assert(s.take(s.len() - 1).take(b) =~= s.take(b));
    }
}

/// A payload of nothing but whitespace trims to the empty sequence.
pub proof fn lemma_trim_all_space(s: Seq<char>)
    requires
        forall|j: int| 0 <= j < s.len() ==> is_space(s[j]),
    ensures
        trim(s).len() == 0,
{
    lemma_trim_start_prefix(s, s.len() as int);
    assert(s.skip(s.len() as int) =~= Seq::<char>::empty());
}

/// Law: a malformed disable directive — the marker occurs in the
/// body, but nothing or only whitespace follows it — names no rule.
pub proof fn lemma_malformed_directive(body: Seq<char>)
    requires
        tail_after_marker(body) is Some,
        forall|j: int|
            0 <= j < tail_after_marker(body)->Some_0.len() ==> is_space(
                #[trigger] tail_after_marker(body)->Some_0[j],
            ),
    ensures
        directive_rule(body) is None,
{
    lemma_trim_all_space(tail_after_marker(body)->Some_0);
}

/// Trims leading and trailing whitespace.
pub fn trim_payload(s: &str) -> (r: String)
    ensures
        r@ == trim(s@),
{
    let n = s.unicode_len();
    let mut a: usize = 0;
    while a < n && is_space_char(s.get_char(a))
        invariant
            n == s@.len(),
            a <= n,
            forall|j: int| 0 <= j < a ==> is_space(s@[j]),
        decreases n - a,
    {
        a = a + 1;
    }
    proof {
        lemma_trim_start_prefix(s@, a as int);
    }
    let mut b: usize = n;
    while b > a && is_space_char(s.get_char(b - 1))
        invariant
            n == s@.len(),
            a <= b <= n,
            forall|j: int| b <= j < n ==> is_space(s@[j]),
        decreases b,
    {
        b = b - 1;
    }
    proof {
        lemma_trim_end_suffix(s@.skip(a as int), b - a);
        assert(s@.skip(a as int).take(b - a) =~= s@.subrange(a as int, b as int));
    }
    let t = s.substring_char(a, b);
    t.to_owned()
}

/// The first position at which the marker occurs in `s`, if any.
fn find_marker(s: &str) -> (r: Option<usize>)
    ensures
        match r {
            Some(i) => i + marker().len() <= s@.len() && starts_with(s@.skip(i as int), marker())
                && forall|j: int| 0 <= j < i ==> !starts_with(s@.skip(j), marker()),
            None => forall|j: int| 0 <= j <= s@.len() ==> !starts_with(s@.skip(j), marker()),
        },
{
    let pat = "tailor disable";
    proof {
        reveal_strlit("tailor disable");
    }
    let n = s.unicode_len();
    let m = pat.unicode_len();
    if n < m {
        proof {
            assert forall|j: int| 0 <= j <= s@.len() implies !starts_with(s@.skip(j), marker()) by {
                assert(s@.skip(j).len() == n - j);
            }
        }
        return None;
    }
    let mut i: usize = 0;
    while i <= n - m
        invariant
            n == s@.len(),
            m == marker().len(),
            pat@ == marker(),
            m <= n,
            i <= n,
            forall|j: int| 0 <= j < i ==> !starts_with(s@.skip(j), marker()),
        decreases n - i,
    {
        let mut k: usize = 0;
        let mut same = true;
        while k < m
            invariant
                n == s@.len(),
                m == marker().len(),
                pat@ == marker(),
                i + m <= n,
                k <= m,
                same == (forall|t: int| 0 <= t < k ==> s@[i + t] == marker()[t]),
            decreases m - k,
        {
            let c = s.get_char(i + k);
            let p = pat.get_char(k);
            same = same && c == p;
            k = k + 1;
        }
        if same {
            proof {
                assert forall|t: int| 0 <= t < marker().len() implies s@.skip(i as int).subrange(
                    0,
                    marker().len() as int,
                )[t] == marker()[t] by {
                    assert(s@.skip(i as int).subrange(0, marker().len() as int)[t] == s@[i + t]);
                }
                assert(s@.skip(i as int).subrange(0, marker().len() as int) =~= marker());
            }
            return Some(i);
        }
        proof {
            let t = choose|t: int| 0 <= t < marker().len() && s@[i + t] != marker()[t];
            assert(s@.skip(i as int).subrange(0, marker().len() as int)[t] == s@[i + t]);
        }
        i = i + 1;
    }
    proof {
        assert forall|j: int| 0 <= j <= s@.len() implies !starts_with(s@.skip(j), marker()) by {
            if j >= i {
                assert(s@.skip(j).len() == n - j);
            }
        }
    }
    None
}

/// Walking past `i` marker-free positions does not change where the
/// first marker occurrence splits `s`.
proof fn lemma_tail_skip(s: Seq<char>, i: int)
    requires
        0 <= i <= s.len(),
        forall|j: int| 0 <= j < i ==> !starts_with(s.skip(j), marker()),
    ensures
        tail_after_marker(s) == tail_after_marker(s.skip(i)),
    decreases i,
{
    if i > 0 {
        assert(s.skip(0) =~= s);
        assert forall|j: int| 0 <= j < i - 1 implies !starts_with(s.skip(1).skip(j), marker()) by {
            assert(s.skip(1).skip(j) =~= s.skip(j + 1));
        }
        lemma_tail_skip(s.skip(1), i - 1);
        assert(s.skip(1).skip(i - 1) =~= s.skip(i));
    } else {
        assert(s.skip(0) =~= s);
    }
}

/// The rule name named by a comment body's disable directive, if the
/// body holds a well-formed one.
pub fn directive_rule_name(body: &str) -> (r: Option<String>)
    ensures
        match r {
            Some(name) => directive_rule(body@) == Some(name@),
            None => directive_rule(body@) is None,
        },
{
    proof {
        reveal_strlit("tailor disable");
    }
    let n = body.unicode_len();
    match find_marker(body) {
        None => {
            proof {
                lemma_tail_skip(body@, n as int);
                assert(body@.skip(n as int) =~= Seq::<char>::empty());
            }
            None
        },
        Some(i) => {
            let m = "tailor disable".unicode_len();
            proof {
                lemma_tail_skip(body@, i as int);
                assert(body@.skip(i as int).skip(marker().len() as int) =~= body@.skip(
                    i + marker().len(),
                ));
            }
            let tail = body.substring_char(i + m, n);
            proof {
                assert(body@.subrange(i + m, n as int) =~= body@.skip(i + marker().len()));
            }
            let t = trim_payload(tail);
            if t.as_str().unicode_len() == 0 {
                None
            } else {
                Some(t)
            }
        },
    }
}

/// The message recorded for a rule whose expression evaluated false:
/// the rule's name and its description.
pub open spec fn failure_message(name: Seq<char>, description: Seq<char>) -> Seq<char> {
    "Failed "@ + name + " ("@ + description + ")"@
}

/// Formats [`failure_message`] for a rule.
pub fn format_failure(name: &str, description: &str) -> (r: String)
    ensures
        r@ == failure_message(name@, description@),
{
    let mut msg = "Failed ".to_owned();
    msg.append(name);
    msg.append(" (");
    msg.append(description);
    msg.append(")");
    msg
}

/// The context attached to an expression-evaluation failure: which
/// rule, in which repository, could not be run.
pub open spec fn expression_error_context(rule: Seq<char>, owner: Seq<char>, repo: Seq<char>) -> Seq<
    char,
> {
    "Failed to run \""@ + rule + "\" from \""@ + owner + "/"@ + repo + "\""@
}

/// Formats [`expression_error_context`] for a rule and repository.
pub fn format_expression_error(rule: &str, owner: &str, repo: &str) -> (r: String)
    ensures
        r@ == expression_error_context(rule@, owner@, repo@),
{
    let mut msg = "Failed to run \"".to_owned();
    msg.append(rule);
    msg.append("\" from \"");
    msg.append(owner);
    msg.append("/");
    msg.append(repo);
    msg.append("\"");
    msg
}

} // verus!
