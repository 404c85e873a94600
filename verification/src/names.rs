//! Name resolution between the host program and shader reflection: Slang's mangling
//! suffix, exact-then-demangled lookup, and "did you mean" suggestions.
use crate::text::{chars_of, joined, same_text, texts};
use vstd::prelude::*;

verus! {

/// An ASCII decimal digit.
pub open spec fn is_ascii_digit(c: char) -> bool {
    '0' <= c <= '9'
}

/// The position of the last `_` in `s`, if any.
pub open spec fn last_underscore(s: Seq<char>) -> Option<int>
    decreases s.len(),
{
    if s.len() == 0 {
        None
    } else if s.last() == '_' {
        Some(s.len() - 1)
    } else {
        last_underscore(s.drop_last())
    }
}

/// A name with Slang's `_<digits>` suffix removed. The suffix is the text after the last
/// `_`; it is removed only when it is non-empty, all ASCII digits, and the `_` is not the
/// first character. Any other name is returned unchanged.
pub open spec fn demangled(s: Seq<char>) -> Seq<char> {
    match last_underscore(s) {
        Some(p) => if 0 < p && p + 1 < s.len() && (forall|j: int|
            p < j < s.len() ==> is_ascii_digit(#[trigger] s[j])) {
            s.subrange(0, p)
        } else {
            s
        },
        None => s,
    }
}

/// The first position at which `want` occurs in `names`.
pub open spec fn first_exact(names: Seq<Seq<char>>, want: Seq<char>) -> Option<int>
    decreases names.len(),
{
    if names.len() == 0 {
        None
    } else {
        match first_exact(names.drop_last(), want) {
            Some(i) => Some(i),
            None => if names.last() == want {
                Some(names.len() - 1)
            } else {
                None
            },
        }
    }
}

/// The positions, ascending, of the names whose demangled form is `want`.
pub open spec fn demangled_hits(names: Seq<Seq<char>>, want: Seq<char>) -> Seq<int>
    decreases names.len(),
{
    if names.len() == 0 {
        Seq::empty()
    } else {
        let rest = demangled_hits(names.drop_last(), want);
        if demangled(names.last()) == want {
            rest.push(names.len() - 1)
        } else {
            rest
        }
    }
}

/// The error text for a name that matches several candidates after demangling.
pub open spec fn ambiguity_message(want: Seq<char>, listed: Seq<Seq<char>>) -> Seq<char> {
    "'"@ + want + "' に一致する候補が複数あります: "@ + joined(listed, ", "@)
}

/// Name resolution: an exact match wins (the first one); otherwise the unique name whose
/// demangled form matches. No match is `Err(None)`; several demangled matches are
/// `Err(Some(message))` listing them in order.
pub open spec fn resolution(names: Seq<Seq<char>>, want: Seq<char>) -> Result<
    int,
    Option<Seq<char>>,
> {
    match first_exact(names, want) {
        Some(i) => Ok(i),
        None => {
            let hits = demangled_hits(names, want);
            if hits.len() == 1 {
                Ok(hits[0])
            } else if hits.len() == 0 {
                Err(None)
            } else {
                Err(Some(ambiguity_message(want, hits.map_values(|i: int| names[i]))))
            }
        },
    }
}

/// The mathematical view of what `resolve_name` returns.
pub open spec fn resolution_view(r: Result<usize, Option<String>>) -> Result<
    int,
    Option<Seq<char>>,
> {
    match r {
        Ok(i) => Ok(i as int),
        Err(None) => Err(None),
        Err(Some(m)) => Err(Some(m@)),
    }
}

/// Levenshtein distance: the least number of single-character insertions, deletions and
/// substitutions that turn `a` into `b`.
pub open spec fn edit_distance(a: Seq<char>, b: Seq<char>) -> nat
    decreases a.len() + b.len(),
{
    if a.len() == 0 {
        b.len()
    } else if b.len() == 0 {
        a.len()
    } else {
        let del = edit_distance(a.drop_last(), b) + 1;
        let ins = edit_distance(a, b.drop_last()) + 1;
        let sub = edit_distance(a.drop_last(), b.drop_last()) + if a.last() == b.last() {
            0nat
        } else {
            1nat
        };
        min_nat(min_nat(sub, del), ins)
    }
}

/// The smaller of two naturals.
pub open spec fn min_nat(x: nat, y: nat) -> nat {
    if x <= y {
        x
    } else {
        y
    }
}

/// The position of the first candidate at the least edit distance from `name`.
pub open spec fn closest(name: Seq<char>, candidates: Seq<Seq<char>>) -> int
    decreases candidates.len(),
{
    if candidates.len() <= 1 {
        0
    } else {
        let k = closest(name, candidates.drop_last());
        if edit_distance(name, candidates.last()) < edit_distance(name, candidates[k]) {
            candidates.len() - 1
        } else {
            k
        }
    }
}

/// The suggested candidate is a nearest one: no candidate is closer to `name`, and every
/// candidate listed before it is strictly farther.
pub proof fn lemma_closest_is_nearest(name: Seq<char>, candidates: Seq<Seq<char>>)
    requires
        candidates.len() > 0,
    ensures
        0 <= closest(name, candidates) < candidates.len(),
        forall|j: int|
            0 <= j < candidates.len() ==> edit_distance(name, candidates[closest(name, candidates)])
                <= edit_distance(name, #[trigger] candidates[j]),
        forall|j: int|
            0 <= j < closest(name, candidates) ==> edit_distance(name, candidates[closest(name, candidates)])
                < edit_distance(name, #[trigger] candidates[j]),
    decreases candidates.len(),
{
    if candidates.len() > 1 {
        let rest = candidates.drop_last();
        lemma_closest_is_nearest(name, rest);
        let k = closest(name, rest);
        assert forall|j: int| 0 <= j < rest.len() implies rest[j] == candidates[j] by {}
    }
}

/// The "not found" message, naming the closest candidate when there is one.
pub open spec fn suggestion(name: Seq<char>, candidates: Seq<Seq<char>>) -> Seq<char> {
    if candidates.len() == 0 {
        "'"@ + name + "' はありません"@
    } else {
        "'"@ + name + "' はありません。候補: "@ + candidates[closest(name, candidates)]
    }
}

proof fn lemma_last_underscore_prefix(s: Seq<char>, k: int)
    requires
        0 <= k <= s.len(),
        forall|j: int| k <= j < s.len() ==> s[j] != '_',
    ensures
        last_underscore(s) == last_underscore(s.subrange(0, k)),
    decreases s.len(),
{
    if s.len() > k {
        assert(s.drop_last().subrange(0, k) =~= s.subrange(0, k));
        lemma_last_underscore_prefix(s.drop_last(), k);
    } else {
        assert(s.subrange(0, k) =~= s);
    }
}

proof fn lemma_last_underscore_found(s: Seq<char>)
    ensures
        last_underscore(s) matches Some(p) ==> 0 <= p < s.len() && s[p] == '_' && forall|j: int|
            p < j < s.len() ==> s[j] != '_',
        last_underscore(s) is None ==> forall|j: int| 0 <= j < s.len() ==> s[j] != '_',
    decreases s.len(),
{
    if s.len() > 0 && s.last() != '_' {
        lemma_last_underscore_found(s.drop_last());
        assert forall|j: int| 0 <= j < s.len() - 1 implies s[j] == s.drop_last()[j] by {}
    }
}

/// Slang's `_<digits>` suffix removed; a hand-written name comes back unchanged.
pub fn demangle(name: &str) -> (r: &str)
    ensures
        r@ == demangled(name@),
{
    let cs = chars_of(name);
    let n = cs.len();
    let mut k = n;
    while k > 0 && cs[k - 1] != '_'
        invariant
            cs@ == name@,
            n == cs@.len(),
            k <= n,
            forall|j: int| k <= j < n ==> cs@[j] != '_',
        decreases k,
    {
        k -= 1;
    }
    proof {
        lemma_last_underscore_prefix(name@, k as int);
        lemma_last_underscore_found(name@);
        if k > 0 {
            assert(name@.subrange(0, k as int).drop_last() =~= name@.subrange(0, k - 1));
            assert(last_underscore(name@) == Some(k - 1));
        } else {
            assert(last_underscore(name@.subrange(0, 0)) is None);
        }
    }
    if k > 1 && k < n {
        let mut all_digits = true;
        let mut j = k;
        while j < n
            invariant
                cs@ == name@,
                n == cs@.len(),
                k <= j <= n,
                all_digits == forall|t: int| k <= t < j ==> is_ascii_digit(cs@[t]),
            decreases n - j,
        {
            let c = cs[j];
            all_digits = all_digits && '0' <= c && c <= '9';
            j += 1;
        }
        if all_digits {
            return name.substring_char(0, k - 1);
        }
    }
    name
}

/// The positions, ascending, of the names whose demangled form is `want`.
fn collect_demangled_hits(names: &[&str], want: &str) -> (hits: Vec<usize>)
    ensures
        hits@.map_values(|i: usize| i as int) == demangled_hits(texts(names@), want@),
        forall|k: int| 0 <= k < hits@.len() ==> #[trigger] hits@[k] < names@.len(),
{
    let mut hits: Vec<usize> = Vec::new();
    let mut i: usize = 0;
    while i < names.len()
        invariant
            i <= names@.len(),
            hits@.map_values(|i: usize| i as int) == demangled_hits(
                texts(names@).subrange(0, i as int),
                want@,
            ),
            forall|k: int| 0 <= k < hits@.len() ==> #[trigger] hits@[k] < i,
        decreases names@.len() - i,
    {
        let ghost prefix = texts(names@).subrange(0, i + 1);
        assert(prefix.drop_last() =~= texts(names@).subrange(0, i as int));
        assert(prefix.last() == names@[i as int]@);
        if same_text(demangle(names[i]), want) {
            hits.push(i);
        }
        i += 1;
    }
    assert(texts(names@).subrange(0, names@.len() as int) =~= texts(names@));
    hits
}

/// Resolves `want` among `names`: exact match first, then a unique demangled match.
/// `Err(None)` when nothing matches; `Err(Some(message))` when several names match after
/// demangling.
pub fn resolve_name(names: &[&str], want: &str) -> (r: Result<usize, Option<String>>)
    ensures
        resolution_view(r) == resolution(texts(names@), want@),
        r matches Ok(i) ==> i < names@.len(),
{
    let ghost all = texts(names@);
    let mut i: usize = 0;
    while i < names.len()
        invariant
            i <= names@.len(),
            all == texts(names@),
            first_exact(all.subrange(0, i as int), want@) is None,
        decreases names@.len() - i,
    {
        let ghost prefix = all.subrange(0, i + 1);
        assert(prefix.drop_last() =~= all.subrange(0, i as int));
        if same_text(names[i], want) {
            proof {
                lemma_first_exact_prefix(all, want@, i + 1);
            }
            return Ok(i);
        }
        i += 1;
    }
    assert(all.subrange(0, names@.len() as int) =~= all);
    let hits = collect_demangled_hits(names, want);
    if hits.len() == 1 {
        return Ok(hits[0]);
    }
    if hits.len() == 0 {
        return Err(None);
    }
    let mut listed: Vec<&str> = Vec::new();
    let mut k: usize = 0;
    while k < hits.len()
        invariant
            k <= hits@.len(),
            forall|t: int| 0 <= t < hits@.len() ==> #[trigger] hits@[t] < names@.len(),
            texts(listed@) == hits@.subrange(0, k as int).map_values(|h: usize| names@[h as int]@),
        decreases hits@.len() - k,
    {
        listed.push(names[hits[k]]);
        assert(hits@.subrange(0, k + 1).map_values(|h: usize| names@[h as int]@) =~= hits@.subrange(
            0,
            k as int,
        ).map_values(|h: usize| names@[h as int]@).push(names@[hits@[k as int] as int]@));
        k += 1;
    }
    let mut msg = String::from_str("'");
    msg.append(want);
    msg.append("' に一致する候補が複数あります: ");
    let joined_names = crate::text::join(&listed, ", ");
    msg.append(joined_names.as_str());
    proof {
        let hv = hits@.map_values(|i: usize| i as int);
        assert(hits@.subrange(0, hits@.len() as int) =~= hits@);
        assert(hv.map_values(|i: int| all[i]) =~= hits@.map_values(|h: usize| names@[h as int]@));
    }
    Err(Some(msg))
}

proof fn lemma_first_exact_in_range(names: Seq<Seq<char>>, want: Seq<char>)
    ensures
        first_exact(names, want) matches Some(i) ==> 0 <= i < names.len() && names[i] == want,
    decreases names.len(),
{
    if names.len() > 0 {
        lemma_first_exact_in_range(names.drop_last(), want);
    }
}

proof fn lemma_hits_in_range(names: Seq<Seq<char>>, want: Seq<char>)
    ensures
        forall|k: int|
            0 <= k < demangled_hits(names, want).len() ==> 0 <= #[trigger] demangled_hits(
                names,
                want,
            )[k] < names.len(),
    decreases names.len(),
{
    if names.len() > 0 {
        lemma_hits_in_range(names.drop_last(), want);
        let rest = demangled_hits(names.drop_last(), want);
        assert forall|k: int| 0 <= k < rest.len() implies 0 <= #[trigger] rest[k] < names.len() by {
            assert(0 <= rest[k] < names.drop_last().len());
        }
    }
}

/// A resolved name is a position in the list.
pub proof fn lemma_resolution_in_range(names: Seq<Seq<char>>, want: Seq<char>)
    ensures
        resolution(names, want) matches Ok(i) ==> 0 <= i < names.len(),
{
    lemma_first_exact_in_range(names, want);
    lemma_hits_in_range(names, want);
}

proof fn lemma_first_exact_prefix(names: Seq<Seq<char>>, want: Seq<char>, n: int)
    requires
        0 < n <= names.len(),
        first_exact(names.subrange(0, n - 1), want) is None,
        names[n - 1] == want,
    ensures
        first_exact(names, want) == Some(n - 1),
    decreases names.len(),
{
    if names.len() > n {
        assert(names.drop_last().subrange(0, n - 1) =~= names.subrange(0, n - 1));
        lemma_first_exact_prefix(names.drop_last(), want, n);
    } else {
        assert(names.drop_last() =~= names.subrange(0, n - 1));
    }
}

proof fn lemma_edit_distance_bound(a: Seq<char>, b: Seq<char>)
    ensures
        edit_distance(a, b) <= if a.len() <= b.len() {
            b.len()
        } else {
            a.len()
        },
    decreases a.len() + b.len(),
{
    if a.len() > 0 && b.len() > 0 {
        lemma_edit_distance_bound(a.drop_last(), b.drop_last());
    }
}

/// Edit distance is symmetric: turning `a` into `b` takes as many edits as turning `b` into `a`.
pub proof fn lemma_edit_distance_symmetric(a: Seq<char>, b: Seq<char>)
    ensures
        edit_distance(a, b) == edit_distance(b, a),
    decreases a.len() + b.len(),
{
    if a.len() > 0 && b.len() > 0 {
        lemma_edit_distance_symmetric(a.drop_last(), b);
        lemma_edit_distance_symmetric(a, b.drop_last());
        lemma_edit_distance_symmetric(a.drop_last(), b.drop_last());
    }
}

/// The distance between a text and the empty text is the text's length, either way round.
pub proof fn lemma_edit_distance_empty(a: Seq<char>)
    ensures
        edit_distance(a, Seq::<char>::empty()) == a.len(),
        edit_distance(Seq::<char>::empty(), a) == a.len(),
{
}

/// The distance is zero exactly when the two texts are equal.
pub proof fn lemma_edit_distance_zero(a: Seq<char>, b: Seq<char>)
    ensures
        edit_distance(a, b) == 0 <==> a == b,
    decreases a.len() + b.len(),
{
    if a.len() == 0 || b.len() == 0 {
        if a.len() == 0 && b.len() == 0 {
            assert(a =~= b);
        }
    } else {
        lemma_edit_distance_zero(a.drop_last(), b.drop_last());
        assert(a =~= a.drop_last().push(a.last()));
        assert(b =~= b.drop_last().push(b.last()));
        if a == b {
            assert(a.drop_last() =~= b.drop_last());
        }
    }
}

/// The distance is at least the difference of the lengths and at most the longer length.
pub proof fn lemma_edit_distance_bounds(a: Seq<char>, b: Seq<char>)
    ensures
        a.len() - b.len() <= edit_distance(a, b),
        b.len() - a.len() <= edit_distance(a, b),
        edit_distance(a, b) <= if a.len() <= b.len() {
            b.len()
        } else {
            a.len()
        },
    decreases a.len() + b.len(),
{
    lemma_edit_distance_bound(a, b);
    if a.len() > 0 && b.len() > 0 {
        lemma_edit_distance_bounds(a.drop_last(), b);
        lemma_edit_distance_bounds(a, b.drop_last());
        lemma_edit_distance_bounds(a.drop_last(), b.drop_last());
    }
}

/// The triangle inequality: going from `a` to `c` never takes more edits than going from `a`
/// to `b` and then from `b` to `c`.
pub proof fn lemma_edit_distance_triangle(a: Seq<char>, b: Seq<char>, c: Seq<char>)
    ensures
        edit_distance(a, c) <= edit_distance(a, b) + edit_distance(b, c),
    decreases a.len() + b.len() + c.len(),
{
    if a.len() == 0 || b.len() == 0 || c.len() == 0 {
        lemma_edit_distance_bounds(a, b);
        lemma_edit_distance_bounds(b, c);
        lemma_edit_distance_bounds(a, c);
    } else {
        let (a1, b1, c1) = (a.drop_last(), b.drop_last(), c.drop_last());
        lemma_edit_distance_triangle(a1, b, c);
        lemma_edit_distance_triangle(a, b, c1);
        lemma_edit_distance_triangle(a, b1, c);
        lemma_edit_distance_triangle(a, b1, c1);
        lemma_edit_distance_triangle(a1, b1, c);
        lemma_edit_distance_triangle(a1, b1, c1);
        let ac = edit_distance(a, c);
        assert(ac <= edit_distance(a1, c) + 1);
        assert(ac <= edit_distance(a, c1) + 1);
        assert(ac <= edit_distance(a1, c1) + if a.last() == c.last() { 0nat } else { 1nat });
    }
}

/// One single-character edit of a text: inserting `c` before position `at`, deleting the
/// character at `at`, or replacing the character at `at` by `c`.
pub enum EditStep {
    Insert { at: nat, c: char },
    Delete { at: nat },
    Substitute { at: nat, c: char },
}

/// Whether the step's position lies in `s`.
pub open spec fn step_applies(s: Seq<char>, e: EditStep) -> bool {
    match e {
        EditStep::Insert { at, .. } => at <= s.len(),
        EditStep::Delete { at } => at < s.len(),
        EditStep::Substitute { at, .. } => at < s.len(),
    }
}

/// The text after one edit.
pub open spec fn apply_step(s: Seq<char>, e: EditStep) -> Seq<char> {
    match e {
        EditStep::Insert { at, c } => s.take(at as int).push(c) + s.skip(at as int),
        EditStep::Delete { at } => s.take(at as int) + s.skip(at as int + 1),
        EditStep::Substitute { at, c } => s.update(at as int, c),
    }
}

/// The text after the edits of `script`, in order, or `None` when one of them does not apply.
pub open spec fn apply_script(s: Seq<char>, script: Seq<EditStep>) -> Option<Seq<char>>
    decreases script.len(),
{
    if script.len() == 0 {
        Some(s)
    } else {
        match apply_script(s, script.drop_last()) {
            Some(t) => if step_applies(t, script.last()) {
                Some(apply_step(t, script.last()))
            } else {
                None
            },
            None => None,
        }
    }
}

/// A common ending adds nothing to the distance.
proof fn lemma_edit_distance_common_suffix(p: Seq<char>, q: Seq<char>, v: Seq<char>)
    ensures
        edit_distance(p + v, q + v) <= edit_distance(p, q),
    decreases v.len(),
{
    if v.len() == 0 {
        assert(p + v =~= p);
        assert(q + v =~= q);
    } else {
        let w = v.drop_last();
        lemma_edit_distance_common_suffix(p, q, w);
        assert((p + v).drop_last() =~= p + w);
        assert((q + v).drop_last() =~= q + w);
        assert((p + v).last() == v.last());
        assert((q + v).last() == v.last());
    }
}

/// One edit moves a text by at most one.
proof fn lemma_edit_distance_step(s: Seq<char>, e: EditStep)
    requires
        step_applies(s, e),
    ensures
        edit_distance(s, apply_step(s, e)) <= 1,
{
    match e {
        EditStep::Insert { at, c } => {
            let u = s.take(at as int);
            let v = s.skip(at as int);
            assert(s =~= u + v);
            assert(apply_step(s, e) =~= u.push(c) + v);
            lemma_edit_distance_zero(u, u);
            assert(u.push(c).drop_last() =~= u);
            assert(edit_distance(u, u.push(c)) <= 1);
            lemma_edit_distance_common_suffix(u, u.push(c), v);
        },
        EditStep::Delete { at } => {
            let u = s.take(at as int);
            let x = s[at as int];
            let v = s.skip(at as int + 1);
            assert(s =~= u.push(x) + v);
            assert(apply_step(s, e) =~= u + v);
            lemma_edit_distance_zero(u, u);
            assert(u.push(x).drop_last() =~= u);
            assert(edit_distance(u.push(x), u) <= 1);
            lemma_edit_distance_common_suffix(u.push(x), u, v);
        },
        EditStep::Substitute { at, c } => {
            let u = s.take(at as int);
            let x = s[at as int];
            let v = s.skip(at as int + 1);
            assert(s =~= u.push(x) + v);
            assert(apply_step(s, e) =~= u.push(c) + v);
            lemma_edit_distance_zero(u, u);
            assert(u.push(x).drop_last() =~= u);
            assert(u.push(c).drop_last() =~= u);
            assert(edit_distance(u.push(x), u.push(c)) <= 1);
            lemma_edit_distance_common_suffix(u.push(x), u.push(c), v);
        },
    }
}

/// No script of single-character edits turns `a` into `b` in fewer than
/// `edit_distance(a, b)` steps.
pub proof fn lemma_edit_distance_least(a: Seq<char>, b: Seq<char>, script: Seq<EditStep>)
    requires
        apply_script(a, script) == Some(b),
    ensures
        edit_distance(a, b) <= script.len(),
    decreases script.len(),
{
    if script.len() == 0 {
        lemma_edit_distance_zero(a, b);
    } else {
        let t = apply_script(a, script.drop_last())->Some_0;
        lemma_edit_distance_least(a, t, script.drop_last());
        lemma_edit_distance_step(t, script.last());
        lemma_edit_distance_triangle(a, t, b);
    }
}

/// Edits that apply to a text apply alike to it with anything appended, and leave the
/// appended part at the end.
proof fn lemma_apply_script_suffix(s: Seq<char>, w: Seq<char>, script: Seq<EditStep>)
    requires
        apply_script(s, script) is Some,
    ensures
        apply_script(s + w, script) == Some(apply_script(s, script)->Some_0 + w),
    decreases script.len(),
{
    if script.len() == 0 {
    } else {
        lemma_apply_script_suffix(s, w, script.drop_last());
        let t = apply_script(s, script.drop_last())->Some_0;
        let e = script.last();
        match e {
            EditStep::Insert { at, c } => {
                assert(apply_step(t + w, e) =~= apply_step(t, e) + w);
            },
            EditStep::Delete { at } => {
                assert(apply_step(t + w, e) =~= apply_step(t, e) + w);
            },
            EditStep::Substitute { at, c } => {
                assert(apply_step(t + w, e) =~= apply_step(t, e) + w);
            },
        }
    }
}

/// A script with one more step at its end.
proof fn push_step(sc: Seq<EditStep>, e: EditStep) -> (steps: Seq<EditStep>)
    ensures
        steps.len() == sc.len() + 1,
        steps.drop_last() == sc,
        steps.last() == e,
{
    let steps = sc.push(e);
    assert(steps.drop_last() =~= sc);
    steps
}

/// A script of exactly `edit_distance(a, b)` edits that turns `a` into `b`.
proof fn edit_script(a: Seq<char>, b: Seq<char>) -> (script: Seq<EditStep>)
    ensures
        apply_script(a, script) == Some(b),
        script.len() == edit_distance(a, b),
    decreases a.len() + b.len(),
{
    if a.len() == 0 && b.len() == 0 {
        assert(a =~= b);
        Seq::empty()
    } else if b.len() > 0 && (a.len() == 0 || edit_distance(a, b) == edit_distance(a, b.drop_last()) + 1) {
        let b1 = b.drop_last();
        let sc = edit_script(a, b1);
        let e = EditStep::Insert { at: b1.len(), c: b.last() };
        let steps = push_step(sc, e);
        assert(apply_step(b1, e) =~= b);
        steps
    } else if a.len() > 0 && (b.len() == 0 || edit_distance(a, b) == edit_distance(a.drop_last(), b) + 1) {
        let a1 = a.drop_last();
        let x = a.last();
        let sc = edit_script(a1, b);
        lemma_apply_script_suffix(a1, seq![x], sc);
        assert(a1 + seq![x] =~= a);
        let e = EditStep::Delete { at: b.len() };
        let steps = push_step(sc, e);
        assert(apply_step(b + seq![x], e) =~= b);
        steps
    } else {
        let a1 = a.drop_last();
        let b1 = b.drop_last();
        let x = a.last();
        let sc = edit_script(a1, b1);
        lemma_apply_script_suffix(a1, seq![x], sc);
        assert(a1 + seq![x] =~= a);
        if x == b.last() {
            assert(b1 + seq![x] =~= b);
            sc
        } else {
            let e = EditStep::Substitute { at: b1.len(), c: b.last() };
            let steps = push_step(sc, e);
            assert(apply_step(b1 + seq![x], e) =~= b);
            steps
        }
    }
}

/// Edit distance is attained: some script of exactly `edit_distance(a, b)` single-character
/// edits turns `a` into `b`.
pub proof fn lemma_edit_distance_attained(a: Seq<char>, b: Seq<char>)
    ensures
        exists|script: Seq<EditStep>|
            apply_script(a, script) == Some(b) && script.len() == edit_distance(a, b),
{
    let script = edit_script(a, b);
}

/// Levenshtein distance between two names, by the row-by-row table.
fn levenshtein(a: &str, b: &str) -> (d: usize)
    ensures
        d == edit_distance(a@, b@),
{
    let a = chars_of(a);
    let b = chars_of(b);
    let la = a.len();
    let lb = b.len();
    let mut prev: Vec<usize> = Vec::new();
    prev.push(0);
    let mut j: usize = 0;
    while j < lb
        invariant
            j <= lb,
            prev@.len() == j + 1,
            forall|t: int| 0 <= t <= j ==> prev@[t] == t,
        decreases lb - j,
    {
        prev.push(j + 1);
        j += 1;
    }
    proof {
        assert forall|t: int| 0 <= t <= lb implies prev@[t] == edit_distance(
            a@.take(0),
            b@.take(t),
        ) by {
            assert(a@.take(0).len() == 0);
        }
    }
    let mut i: usize = 0;
    while i < la
        invariant
            i <= la,
            la == a@.len(),
            lb == b@.len(),
            prev@.len() == lb + 1,
            forall|t: int| 0 <= t <= lb ==> prev@[t] == edit_distance(a@.take(i as int), b@.take(t)),
        decreases la - i,
    {
        let mut cur: Vec<usize> = Vec::new();
        cur.push(i + 1);
        proof {
            assert(b@.take(0).len() == 0);
            assert(a@.take(i + 1).len() == i + 1);
        }
        let mut j: usize = 0;
        while j < lb
            invariant
                i < la,
                j <= lb,
                la == a@.len(),
                lb == b@.len(),
                prev@.len() == lb + 1,
                forall|t: int|
                    0 <= t <= lb ==> prev@[t] == edit_distance(a@.take(i as int), b@.take(t)),
                cur@.len() == j + 1,
                forall|t: int|
                    0 <= t <= j ==> cur@[t] == edit_distance(a@.take(i + 1), b@.take(t)),
            decreases lb - j,
        {
            let ghost aa = a@.take(i + 1);
            let ghost bb = b@.take(j + 1);
            proof {
                assert(aa.drop_last() =~= a@.take(i as int));
                assert(bb.drop_last() =~= b@.take(j as int));
                assert(aa.last() == a@[i as int]);
                assert(bb.last() == b@[j as int]);
                lemma_edit_distance_bound(aa, bb);
            }
            let cost: usize = if a[i] == b[j] {
                0
            } else {
                1
            };
            let m = if prev[j + 1] <= cur[j] {
                prev[j + 1]
            } else {
                cur[j]
            };
            let best = if prev[j] < m || (prev[j] == m && cost == 0) {
                prev[j] + cost
            } else {
                m + 1
            };
            cur.push(best);
            j += 1;
        }
        prev = cur;
        i += 1;
    }
    proof {
        assert(a@.take(la as int) =~= a@);
        assert(b@.take(lb as int) =~= b@);
    }
    prev[lb]
}

/// "'srcc' はありません。候補: src": the message for a name that was not found, offering the
/// first candidate at the least edit distance.
pub fn suggest(name: &str, candidates: &[&str]) -> (msg: String)
    ensures
        msg@ == suggestion(name@, texts(candidates@)),
{
    let ghost all = texts(candidates@);
    let mut msg = String::from_str("'");
    msg.append(name);
    if candidates.len() == 0 {
        msg.append("' はありません");
        return msg;
    }
    let mut best: usize = 0;
    let mut best_d = levenshtein(name, candidates[0]);
    let mut k: usize = 1;
    proof {
        assert(all.subrange(0, 1).len() == 1);
    }
    while k < candidates.len()
        invariant
            1 <= k <= candidates@.len(),
            all == texts(candidates@),
            best == closest(name@, all.subrange(0, k as int)),
            best < k,
            best_d == edit_distance(name@, all[best as int]),
        decreases candidates@.len() - k,
    {
        let d = levenshtein(name, candidates[k]);
        proof {
            let pre = all.subrange(0, k + 1);
            assert(pre.drop_last() =~= all.subrange(0, k as int));
            assert(pre[best as int] == all[best as int]);
        }
        if d < best_d {
            best = k;
            best_d = d;
        }
        k += 1;
    }
    assert(all.subrange(0, candidates@.len() as int) =~= all);
    msg.append("' はありません。候補: ");
    msg.append(candidates[best]);
    msg
}

} // verus!
