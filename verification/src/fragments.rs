//! The fragment model: heterogeneous descriptors of one contribution each to
//! a class list, evaluated to present-or-absent strings, normalized, and
//! joined with single spaces.

use vstd::prelude::*;

use crate::normalize::is_normalized;
use crate::normalize::is_ws_char;
use crate::normalize::lemma_normalize_identity;
use crate::normalize::lemma_normalize_normalized;
use crate::normalize::normalize_classname;
use crate::normalize::normalize_spec;
use crate::normalize::push_space;

verus! {

/// One candidate contribution to the final class string.
pub enum Fragment {
    /// An unconditional value, always evaluated.
    Literal(String),
    /// A value present exactly when the condition is true.
    Conditional(bool, String),
    /// A two-way choice, always present; which value depends on the
    /// condition.
    Ternary(bool, String, String),
    /// A value present exactly when the option holds one.
    Optional(Option<String>),
    /// The result of an arbitrary caller-side computation (a block result),
    /// always present; an empty string is a valid, later-filtered result.
    Computed(String),
}

/// What a fragment evaluates to: absent, or a raw (not yet normalized)
/// string.
pub open spec fn eval_spec(f: Fragment) -> Option<Seq<char>> {
    match f {
        Fragment::Literal(v) => Some(v@),
        Fragment::Conditional(cond, v) => if cond {
            Some(v@)
        } else {
            None
        },
        Fragment::Ternary(cond, when_true, when_false) => if cond {
            Some(when_true@)
        } else {
            Some(when_false@)
        },
        Fragment::Optional(v) => match v {
            Some(value) => Some(value@),
            None => None,
        },
        Fragment::Computed(v) => Some(v@),
    }
}

/// What a fragment adds to the composition: its evaluated value in
/// normalized form, or nothing. An absent fragment and one whose value
/// normalizes to the empty string contribute alike.
pub open spec fn contribution_spec(f: Fragment) -> Seq<char> {
    match eval_spec(f) {
        Some(raw) => normalize_spec(raw),
        None => Seq::empty(),
    }
}

/// The composition of a fragment sequence: the non-empty contributions, in
/// order, joined by single spaces.
pub open spec fn compose_spec(frags: Seq<Fragment>) -> Seq<char>
    decreases frags.len(),
{
    if frags.len() == 0 {
        Seq::empty()
    } else {
        let head = contribution_spec(frags[0]);
        let rest = compose_spec(frags.skip(1));
        if head.len() == 0 {
            rest
        } else if rest.len() == 0 {
            head
        } else {
            head + seq![' '] + rest
        }
    }
}

/// Joining of two already-composed parts: both when both are non-empty,
/// separated by one space; otherwise whichever is non-empty.
spec fn combine(a: Seq<char>, b: Seq<char>) -> Seq<char> {
    if a.len() == 0 {
        b
    } else if b.len() == 0 {
        a
    } else {
        a + seq![' '] + b
    }
}

proof fn lemma_combine_assoc(a: Seq<char>, b: Seq<char>, c: Seq<char>)
    ensures
        combine(combine(a, b), c) == combine(a, combine(b, c)),
{
    if a.len() > 0 && b.len() > 0 && c.len() > 0 {
        assert(combine(combine(a, b), c) =~= combine(a, combine(b, c)));
    }
}

/// Evaluates one fragment: a reference to its raw value when present,
/// nothing when absent.
pub fn eval_fragment<'a>(f: &'a Fragment) -> (r: Option<&'a String>)
    ensures
        match r {
            Some(v) => eval_spec(*f) == Some(v@),
            None => eval_spec(*f) is None,
        },
{
    match f {
        Fragment::Literal(v) => Some(v),
        Fragment::Conditional(cond, v) => if *cond {
            Some(v)
        } else {
            None
        },
        Fragment::Ternary(cond, when_true, when_false) => if *cond {
            Some(when_true)
        } else {
            Some(when_false)
        },
        Fragment::Optional(v) => match v {
            Some(value) => Some(value),
            None => None,
        },
        Fragment::Computed(v) => Some(v),
    }
}

/// Evaluates the fragments in order, normalizes each present value, drops
/// the empty results, and joins the survivors with single spaces. May return
/// the empty string when every fragment vanishes; never fails.
pub fn compose(fragments: Vec<Fragment>) -> (r: String)
    ensures
        r@ == compose_spec(fragments@),
{
    let ghost fs = fragments@;
    let n = fragments.len();
    let mut out = String::new();
    let mut i: usize = 0;
    proof {
        assert(fs.skip(0) =~= fs);
    }
    while i < n
        invariant
            fs == fragments@,
            n == fs.len(),
            i <= n,
            compose_spec(fs) == combine(out@, compose_spec(fs.skip(i as int))),
        decreases n - i,
    {
        proof {
            assert(fs.skip(i as int).skip(1) =~= fs.skip(i as int + 1));
            assert(fs.skip(i as int)[0] == fs[i as int]);
            assert(compose_spec(fs.skip(i as int)) == combine(
                contribution_spec(fs[i as int]),
                compose_spec(fs.skip(i as int + 1)),
            ));
            lemma_combine_assoc(
                out@,
                contribution_spec(fs[i as int]),
                compose_spec(fs.skip(i as int + 1)),
            );
        }
        let evaluated = eval_fragment(&fragments[i]);
        let ghost prev = out@;
        match evaluated {
            Some(raw) => {
                let normalized = normalize_classname(raw.as_str());
                if !normalized.as_str().is_empty() {
                    if !out.as_str().is_empty() {
                        push_space(&mut out);
                        out.append(normalized.as_str());
                        proof {
                            assert(out@ =~= combine(prev, contribution_spec(fs[i as int])));
                        }
                    } else {
                        out = normalized;
                    }
                }
            },
            None => {},
        }
        i = i + 1;
    }
    proof {
        assert(fs.skip(n as int) =~= Seq::<Fragment>::empty());
    }
    out
}

/// Returns the normalized form of whichever branch the condition selects.
/// The fixed arity of exactly three operands is part of the signature.
pub fn select(cond: bool, when_true: &str, when_false: &str) -> (r: String)
    ensures
        r@ == normalize_spec(if cond { when_true@ } else { when_false@ }),
{
    if cond {
        normalize_classname(when_true)
    } else {
        normalize_classname(when_false)
    }
}

/// Returns the normalized value when the condition holds, else the empty
/// string. The fixed arity of exactly two operands is part of the signature.
pub fn gate(cond: bool, value: &str) -> (r: String)
    ensures
        r@ == if cond { normalize_spec(value@) } else { Seq::<char>::empty() },
{
    if cond {
        normalize_classname(value)
    } else {
        String::new()
    }
}

/// Returns the normalized contained value, or the empty string when the
/// option is empty.
pub fn from_option(value: Option<&str>) -> (r: String)
    ensures
        r@ == match value {
            Some(v) => normalize_spec(v@),
            None => Seq::<char>::empty(),
        },
{
    match value {
        Some(v) => normalize_classname(v),
        None => String::new(),
    }
}

proof fn lemma_join_normalized(a: Seq<char>, b: Seq<char>)
    requires
        is_normalized(a),
        is_normalized(b),
        a.len() > 0,
        b.len() > 0,
    ensures
        is_normalized(a + seq![' '] + b),
{
    let t = a + seq![' '] + b;
    assert(t.len() == a.len() + 1 + b.len());
    assert(forall|j: int| 0 <= j < a.len() ==> t[j] == #[trigger] a[j]);
    assert(t[a.len() as int] == ' ');
    assert(forall|j: int| 0 <= j < b.len() ==> t[a.len() + 1 + j] == #[trigger] b[j]);
    assert forall|i: int| 0 <= i < t.len() && is_ws_char(#[trigger] t[i]) implies t[i] == ' ' by {
        if i < a.len() {
            assert(t[i] == a[i]);
        } else if i > a.len() {
            assert(t[i] == b[i - a.len() - 1]);
        }
    }
    assert forall|i: int| 0 <= i < t.len() - 1 implies !((#[trigger] t[i]) == ' ' && t[i + 1]
        == ' ') by {
        if i + 1 < a.len() {
            assert(t[i] == a[i] && t[i + 1] == a[i + 1]);
        } else if i + 1 == a.len() {
            assert(t[i] == a[i] && a[a.len() - 1] != ' ');
        } else if i == a.len() {
            assert(t[i + 1] == b[0] && b[0] != ' ');
        } else {
            assert(t[i] == b[i - a.len() - 1] && t[i + 1] == b[i - a.len()]);
        }
    }
    assert(t[0] == a[0]);
    assert(t[t.len() - 1] == b[b.len() - 1]);
}

/// A composition is always a normalized string: each contribution is
/// normalized and non-empty, and the join separator is a single space.
pub proof fn lemma_compose_normalized(frags: Seq<Fragment>)
    ensures
        is_normalized(compose_spec(frags)),
    decreases frags.len(),
{
    if frags.len() > 0 {
        match eval_spec(frags[0]) {
            Some(raw) => lemma_normalize_normalized(raw),
            None => {},
        }
        lemma_compose_normalized(frags.skip(1));
        let head = contribution_spec(frags[0]);
        let rest = compose_spec(frags.skip(1));
        if head.len() > 0 && rest.len() > 0 {
            lemma_join_normalized(head, rest);
        }
    }
}

/// Composing never needs a second normalization pass: normalizing the joined
/// result of a composition returns it unchanged.
pub proof fn lemma_compose_already_normalized(frags: Seq<Fragment>)
    ensures
        normalize_spec(compose_spec(frags)) == compose_spec(frags),
{
    lemma_compose_normalized(frags);
    lemma_normalize_identity(compose_spec(frags));
}

/// A gated fragment whose condition is false, and an optional fragment that
/// holds no value, contribute nothing: the composition equals that of the
/// sequence with the fragment omitted entirely.
pub proof fn lemma_absent_fragment_vanishes(frags: Seq<Fragment>, i: int)
    requires
        0 <= i < frags.len(),
        (frags[i] matches Fragment::Conditional(false, _)) || (frags[i]
            matches Fragment::Optional(None)),
    ensures
        compose_spec(frags) == compose_spec(frags.remove(i)),
    decreases i,
{
    assert(contribution_spec(frags[i]) == Seq::<char>::empty());
    if i == 0 {
        assert(frags.remove(0) =~= frags.skip(1));
    } else {
        lemma_absent_fragment_vanishes(frags.skip(1), i - 1);
        assert(frags.skip(1).remove(i - 1) =~= frags.remove(i).skip(1));
        assert(frags.remove(i)[0] == frags[0]);
        assert(frags.remove(i).len() == frags.len() - 1);
    }
}

} // verus!
