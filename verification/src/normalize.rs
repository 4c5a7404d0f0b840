//! Whitespace normalization: collapse arbitrary runs of whitespace into
//! single spaces and drop leading and trailing whitespace.

use vstd::prelude::*;

verus! {

/// Whether `c` carries the Unicode `White_Space` property, the separator
/// classification used throughout this crate: ASCII whitespace (space, tab,
/// line feed, vertical tab, form feed, carriage return) together with the
/// other Unicode whitespace code points.
pub open spec fn is_ws_char(c: char) -> bool {
    let u = c as u32;
    u == 0x09 || u == 0x0A || u == 0x0B || u == 0x0C || u == 0x0D || u == 0x20 || u == 0x85
        || u == 0xA0 || u == 0x1680 || (0x2000 <= u && u <= 0x200A) || u == 0x2028 || u == 0x2029
        || u == 0x202F || u == 0x205F || u == 0x3000
}

/// Executable whitespace test, equivalent to [`is_ws_char`].
pub fn is_space_char(c: char) -> (r: bool)
    ensures
        r == is_ws_char(c),
{
    let u = c as u32;
    u == 0x09 || u == 0x0A || u == 0x0B || u == 0x0C || u == 0x0D || u == 0x20 || u == 0x85
        || u == 0xA0 || u == 0x1680 || (0x2000 <= u && u <= 0x200A) || u == 0x2028 || u == 0x2029
        || u == 0x202F || u == 0x205F || u == 0x3000
}

/// The canonical form of `s`: its maximal runs of non-whitespace characters,
/// in order, joined by single spaces. Leading and trailing whitespace
/// vanishes; a run of whitespace between two tokens becomes one space.
pub open spec fn normalize_spec(s: Seq<char>) -> Seq<char>
    decreases s.len(),
{
    if s.len() == 0 {
        Seq::empty()
    } else if is_ws_char(s[0]) {
        normalize_spec(s.skip(1))
    } else {
        let rest = normalize_spec(s.skip(1));
        if s.len() >= 2 && is_ws_char(s[1]) && rest.len() > 0 {
            seq![s[0], ' '] + rest
        } else {
            seq![s[0]] + rest
        }
    }
}

/// The invariant of a normalized string: every whitespace character in it is
/// a plain space, no two spaces are adjacent, and it neither starts nor ends
/// with a space.
pub open spec fn is_normalized(t: Seq<char>) -> bool {
    &&& forall|i: int| 0 <= i < t.len() ==> (is_ws_char(t[i]) ==> t[i] == ' ')
    &&& forall|i: int| 0 <= i < t.len() - 1 ==> !((#[trigger] t[i]) == ' ' && t[i + 1] == ' ')
    &&& t.len() > 0 ==> t[0] != ' ' && t[t.len() - 1] != ' '
}

/// Appends a single space to the string.
pub(crate) fn push_space(s: &mut String)
    ensures
        final(s)@ == old(s)@ + seq![' '],
{
    proof {
        reveal_strlit(" ");
        assert(" "@ =~= seq![' ']);
    }
    s.append(" ")
}

/// How much of the normalized whole is still owed once a prefix has been
/// emitted as `done`: the rest, preceded by one space when `gap` records a
/// pending separator and both sides are non-empty.
spec fn glue(done: Seq<char>, gap: bool, rest: Seq<char>) -> Seq<char> {
    if gap && done.len() > 0 && rest.len() > 0 {
        done + seq![' '] + rest
    } else {
        done + rest
    }
}

/// Normalizes the whitespace of a class-name string: runs of whitespace
/// collapse to single spaces and leading and trailing whitespace is dropped.
/// Total and pure; an empty or all-whitespace input yields the empty string.
pub fn normalize_classname(input: &str) -> (r: String)
    ensures
        r@ == normalize_spec(input@),
{
    let ghost s = input@;
    let n = input.unicode_len();
    let mut out = String::new();
    let mut pending = false;
    let mut started = false;
    let mut i: usize = 0;
    proof {
        assert(s.skip(0) =~= s);
    }
    while i < n
        invariant
            n == s.len(),
            s == input@,
            i <= n,
            started <==> out@.len() > 0,
            pending ==> started,
            normalize_spec(s) == glue(
                out@,
                pending || (i < n && is_ws_char(s[i as int])),
                normalize_spec(s.skip(i as int)),
            ),
        decreases n - i,
    {
        let c = input.get_char(i);
        proof {
            assert(s.skip(i as int).skip(1) =~= s.skip(i as int + 1));
            assert(s.skip(i as int)[0] == s[i as int]);
        }
        if is_space_char(c) {
            if started {
                pending = true;
            }
        } else {
            proof {
                let rest_next = normalize_spec(s.skip(i as int + 1));
                let sep_next = i + 1 < n && is_ws_char(s[i as int + 1]) && rest_next.len() > 0;
                if sep_next {
                    assert(normalize_spec(s.skip(i as int)) =~= seq![s[i as int], ' ']
                        + rest_next);
                } else {
                    assert(normalize_spec(s.skip(i as int)) =~= seq![s[i as int]] + rest_next);
                }
                if pending {
                    assert(glue(out@, true, normalize_spec(s.skip(i as int))) =~= glue(
                        out@ + seq![' '] + seq![c],
                        sep_next,
                        rest_next,
                    ));
                } else {
                    assert(glue(out@, i < n && is_ws_char(s[i as int]), normalize_spec(s.skip(i as int)))
                        =~= glue(out@ + seq![c], sep_next, rest_next));
                }
            }
            if pending {
                push_space(&mut out);
                pending = false;
            }
            let piece = input.substring_char(i, i + 1);
            proof {
                assert(piece@ =~= seq![s[i as int]]);
            }
            out.append(piece);
            started = true;
            proof {
                assert(out@.len() > 0);
            }
        }
        i = i + 1;
    }
    proof {
        assert(s.skip(n as int) =~= Seq::<char>::empty());
        assert(glue(out@, pending, Seq::<char>::empty()) =~= out@);
    }
    out
}

/// Standalone pretty-printing utility: the direct normalizer invocation,
/// exposed under its own name for callers that only want whitespace hygiene.
pub fn pretty_classname(input: &str) -> (r: String)
    ensures
        r@ == normalize_spec(input@),
{
    normalize_classname(input)
}

/// Normalization always yields a normalized string: no whitespace but single
/// spaces, no two adjacent spaces, and no space at either end.
pub proof fn lemma_normalize_normalized(s: Seq<char>)
    ensures
        is_normalized(normalize_spec(s)),
    decreases s.len(),
{
    if s.len() == 0 {
    } else if is_ws_char(s[0]) {
        lemma_normalize_normalized(s.skip(1));
    } else {
        lemma_normalize_normalized(s.skip(1));
        let rest = normalize_spec(s.skip(1));
        assert(is_ws_char(' '));
        assert(s[0] != ' ');
        if s.len() >= 2 && is_ws_char(s[1]) && rest.len() > 0 {
            let t = seq![s[0], ' '] + rest;
            assert(normalize_spec(s) == t);
            assert(t[0] == s[0] && t[1] == ' ');
            assert(forall|j: int| 0 <= j < rest.len() ==> t[j + 2] == #[trigger] rest[j]);
            assert forall|i: int| 0 <= i < t.len() && is_ws_char(#[trigger] t[i]) implies t[i]
                == ' ' by {
                if i >= 2 {
                    assert(t[i] == rest[i - 2]);
                }
            }
            assert forall|i: int| 0 <= i < t.len() - 1 implies !((#[trigger] t[i]) == ' ' && t[i
                + 1] == ' ') by {
                if i == 1 {
                    assert(t[2] == rest[0]);
                    assert(rest[0] != ' ');
                } else if i >= 2 {
                    assert(t[i] == rest[i - 2] && t[i + 1] == rest[i - 1]);
                }
            }
            assert(t[t.len() - 1] == rest[rest.len() - 1]);
        } else {
            let t = seq![s[0]] + rest;
            assert(normalize_spec(s) == t);
            assert(t[0] == s[0]);
            assert(forall|j: int| 0 <= j < rest.len() ==> t[j + 1] == #[trigger] rest[j]);
            assert forall|i: int| 0 <= i < t.len() && is_ws_char(#[trigger] t[i]) implies t[i]
                == ' ' by {
                if i >= 1 {
                    assert(t[i] == rest[i - 1]);
                }
            }
            assert forall|i: int| 0 <= i < t.len() - 1 implies !((#[trigger] t[i]) == ' ' && t[i
                + 1] == ' ') by {
                if i >= 1 {
                    assert(t[i] == rest[i - 1] && t[i + 1] == rest[i]);
                }
            }
            if rest.len() > 0 {
                assert(t[t.len() - 1] == rest[rest.len() - 1]);
            }
        }
    }
}

/// Normalization is the identity on strings that are already normalized.
pub proof fn lemma_normalize_identity(t: Seq<char>)
    requires
        is_normalized(t),
    ensures
        normalize_spec(t) == t,
    decreases t.len(),
{
    if t.len() == 0 {
        assert(normalize_spec(t) =~= t);
    } else {
        assert(!is_ws_char(t[0]));
        if t.len() == 1 {
            assert(t.skip(1) =~= Seq::<char>::empty());
            assert(normalize_spec(t.skip(1)) == Seq::<char>::empty());
            assert(normalize_spec(t) == seq![t[0]] + normalize_spec(t.skip(1)));
            assert(normalize_spec(t) =~= t);
        } else if t[1] == ' ' {
            assert(t[t.len() - 1] != ' ');
            assert(t.len() >= 3);
            assert(t[2] != ' ');
            let v = t.skip(2);
            assert(forall|j: int| 0 <= j < v.len() ==> #[trigger] v[j] == t[j + 2]);
            assert forall|i: int| 0 <= i < v.len() - 1 implies !((#[trigger] v[i]) == ' ' && v[i
                + 1] == ' ') by {
                assert(v[i] == t[i + 2] && v[i + 1] == t[i + 3]);
            }
            assert(is_normalized(v));
            lemma_normalize_identity(v);
            assert(t.skip(1).skip(1) =~= v);
            assert(t.skip(1)[0] == t[1]);
            assert(is_ws_char(t[1]));
            assert(normalize_spec(t.skip(1)) == v);
            assert(v.len() > 0);
            assert(normalize_spec(t) == seq![t[0], ' '] + v);
            assert(normalize_spec(t) =~= t);
        } else {
            assert(!is_ws_char(t[1]));
            let v = t.skip(1);
            assert(forall|j: int| 0 <= j < v.len() ==> #[trigger] v[j] == t[j + 1]);
            assert forall|i: int| 0 <= i < v.len() - 1 implies !((#[trigger] v[i]) == ' ' && v[i
                + 1] == ' ') by {
                assert(v[i] == t[i + 1] && v[i + 1] == t[i + 2]);
            }
            assert(is_normalized(v));
            lemma_normalize_identity(v);
            assert(normalize_spec(t) == seq![t[0]] + v);
            assert(normalize_spec(t) =~= t);
        }
    }
}

/// Normalization is idempotent: a second pass over an already normalized
/// result changes nothing.
pub proof fn lemma_normalize_idempotent(s: Seq<char>)
    ensures
        normalize_spec(normalize_spec(s)) == normalize_spec(s),
{
    lemma_normalize_normalized(s);
    lemma_normalize_identity(normalize_spec(s));
}

/// The normalized form of `s` is empty exactly when `s` holds nothing but
/// whitespace (in particular, when `s` is empty).
pub proof fn lemma_normalize_empty_iff_blank(s: Seq<char>)
    ensures
        (normalize_spec(s).len() == 0) <==> (forall|i: int|
            0 <= i < s.len() ==> is_ws_char(#[trigger] s[i])),
    decreases s.len(),
{
    if s.len() == 0 {
    } else if is_ws_char(s[0]) {
        lemma_normalize_empty_iff_blank(s.skip(1));
        let v = s.skip(1);
        assert(forall|j: int| 0 <= j < v.len() ==> #[trigger] v[j] == s[j + 1]);
        if normalize_spec(s).len() == 0 {
            assert forall|i: int| 0 <= i < s.len() implies is_ws_char(#[trigger] s[i]) by {
                if i >= 1 {
                    assert(s[i] == v[i - 1]);
                }
            }
        } else {
            if forall|i: int| 0 <= i < s.len() ==> is_ws_char(#[trigger] s[i]) {
                assert forall|j: int| 0 <= j < v.len() implies is_ws_char(#[trigger] v[j]) by {
                    assert(v[j] == s[j + 1]);
                }
                assert(false);
            }
        }
    } else {
        assert(normalize_spec(s).len() > 0);
        assert(!is_ws_char(s[0]));
    }
}

} // verus!
