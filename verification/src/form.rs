//! What a browser submits of a page: the values of its checkboxes.
use crate::text;
use vstd::prelude::*;

verus! {

/// How the markup of a checkbox of the probe form goes on to its value.
pub open spec fn opening() -> Seq<char> {
    "name=\"entry\" value=\""@
}

/// Whether a checkbox has its name and its value at `i`.
pub open spec fn opens_at(s: Seq<char>, i: int) -> bool {
    0 <= i && i + opening().len() <= s.len() && s.subrange(i, i + opening().len()) == opening()
}

/// What stands in front of the next quote.
pub open spec fn up_to_quote(s: Seq<char>) -> Seq<char> {
    s.take(text::first_of(s, '"'))
}

/// The values of the checkboxes of a page, in order, as they are written there.
pub open spec fn checkbox_values(s: Seq<char>) -> Seq<Seq<char>>
    decreases s.len(),
{
    if s.len() == 0 {
        Seq::empty()
    } else if opens_at(s, 0) {
        seq![up_to_quote(s.skip(opening().len() as int))] + checkbox_values(s.drop_first())
    } else {
        checkbox_values(s.drop_first())
    }
}

/// Where no checkbox opens among the first `k` characters, they hold no value.
pub proof fn lemma_skip(s: Seq<char>, k: int)
    requires
        0 <= k <= s.len(),
        forall|i: int| 0 <= i < k ==> !opens_at(s, i),
    ensures
        checkbox_values(s) == checkbox_values(s.skip(k)),
    decreases k,
{
    if k == 0 {
        assert(s.skip(0) =~= s);
    } else {
        let t = s.drop_first();
        assert(!opens_at(s, 0));
        assert forall|i: int| 0 <= i < k - 1 implies !opens_at(t, i) by {
            if opens_at(t, i) {
                assert(s.subrange(i + 1, i + 1 + opening().len()) =~= t.subrange(
                    i,
                    i + opening().len(),
                ));
                assert(opens_at(s, i + 1));
            }
        }
        lemma_skip(t, k - 1);
        assert(t.skip(k - 1) =~= s.skip(k));
    }
}

/// The characters of an opening that are compared.
pub proof fn lemma_opening()
    ensures
        opening().len() == 20,
        opening() =~= seq![
            'n', 'a', 'm', 'e', '=', '"', 'e', 'n', 't', 'r', 'y', '"', ' ', 'v', 'a', 'l', 'u',
            'e', '=', '"',
        ],
{
    reveal_strlit("name=\"entry\" value=\"");
}

/// Whether the quote at `j` may be the first one of an opening.
pub open spec fn marked(s: Seq<char>, j: int) -> bool {
    3 <= j < s.len() - 1 && s[j] == '"' && s[j - 3] == 'm' && s[j + 1] == 'e'
}

/// A text in which no checkbox opens, nor where such texts are joined.
pub open spec fn quiet(s: Seq<char>) -> bool {
    &&& forall|j: int| !#[trigger] marked(s, j)
    &&& forall|j: int| 0 <= j < 3 && j < s.len() - 1 && #[trigger] s[j] == '"' ==> s[j + 1] != 'e'
    &&& s.len() > 0 && s.last() == '"' ==> s.len() >= 4 && s[s.len() - 4] != 'm'
}

pub proof fn lemma_quiet_joined(a: Seq<char>, b: Seq<char>)
    requires
        quiet(a),
        quiet(b),
    ensures
        quiet(a + b),
{
    let s = a + b;
    let n = a.len() as int;
    assert forall|j: int| !#[trigger] marked(s, j) by {
        if marked(s, j) {
            if j + 1 < n {
                assert(marked(a, j));
            } else if j < n {
                assert(a.last() == '"');
            } else if j - 3 >= n {
                assert(marked(b, j - n));
            } else {
                assert(b[j - n] == '"');
            }
        }
    }
    assert forall|j: int| 0 <= j < 3 && j < s.len() - 1 && #[trigger] s[j] == '"' implies s[j + 1]
        != 'e' by {
        if j + 1 < n {
            assert(a[j] == '"');
        } else if j < n {
            assert(a.last() == '"');
        } else {
            assert(b[j - n] == '"');
        }
    }
    if s.len() > 0 && s.last() == '"' {
        if b.len() > 0 {
            assert(b.last() == '"');
        } else {
            assert(s =~= a);
        }
    }
}

/// A text without a quote is quiet.
pub proof fn lemma_plain_is_quiet(s: Seq<char>)
    requires
        forall|i: int| 0 <= i < s.len() ==> s[i] != '"',
    ensures
        quiet(s),
{
}

/// A quiet text that ends a tag holds no value, whatever follows it.
pub proof fn lemma_pass(p: Seq<char>, t: Seq<char>)
    requires
        quiet(p),
        p.len() > 0 ==> p.last() == '>',
    ensures
        checkbox_values(p + t) == checkbox_values(t),
{
    lemma_opening();
    let s = p + t;
    assert forall|i: int| 0 <= i < p.len() implies !opens_at(s, i) by {
        if opens_at(s, i) {
            let o = s.subrange(i, i + 20);
            if i + 20 <= p.len() {
                assert(o[2] == s[i + 2] && o[5] == s[i + 5] && o[6] == s[i + 6]);
                assert(marked(p, i + 5));
            } else {
                let k = p.len() - 1 - i;
                assert(o[k] == s[p.len() - 1]);
                assert(o[k] == opening()[k]);
                assert(opening()[k] != '>');
            }
        }
    }
    lemma_skip(s, p.len() as int);
    assert(s.skip(p.len() as int) =~= t);
}

/// A quiet text holds no value.
pub proof fn lemma_quiet_has_none(p: Seq<char>)
    requires
        quiet(p),
    ensures
        checkbox_values(p).len() == 0,
{
    lemma_opening();
    assert forall|i: int| 0 <= i < p.len() implies !opens_at(p, i) by {
        if opens_at(p, i) {
            let o = p.subrange(i, i + 20);
            assert(o[2] == p[i + 2] && o[5] == p[i + 5] && o[6] == p[i + 6]);
            assert(marked(p, i + 5));
        }
    }
    lemma_skip(p, p.len() as int);
    assert(p.skip(p.len() as int) =~= Seq::<char>::empty());
}

/// No checkbox opens inside of an opening.
proof fn lemma_inside_opening(x: Seq<char>, i: int)
    requires
        1 <= i < 20,
    ensures
        !opens_at(opening() + x, i),
{
    lemma_opening();
    let s = opening() + x;
    if opens_at(s, i) {
        let o = s.subrange(i, i + 20);
        assert(o[0] == s[i]);
        assert(s[i] == opening()[i]);
        assert(opening()[i] == 'n');
        assert(i == 7);
        assert(o[1] == s[8]);
        assert(s[8] == opening()[8]);
    }
}

/// An opening holds the value behind it, up to the next quote.
proof fn lemma_opened(x: Seq<char>)
    ensures
        checkbox_values(opening() + x) == seq![up_to_quote(x)] + checkbox_values(x),
{
    let s = opening() + x;
    assert(opening().len() == 20) by {
        lemma_opening();
    }
    assert(s.subrange(0, 20) =~= opening());
    assert(s.skip(20) =~= x);
    let u = s.drop_first();
    assert forall|i: int| 0 <= i < 19 implies !opens_at(u, i) by {
        lemma_inside_opening(x, i + 1);
        if opens_at(u, i) {
            assert(u.subrange(i, i + 20) =~= s.subrange(i + 1, i + 1 + 20));
        }
    }
    lemma_skip(u, 19);
    assert(u.skip(19) =~= x);
}

/// An opening, a value without a quote, and a quiet rest that closes the value and ends a tag hold
/// that value.
pub proof fn lemma_value(v: Seq<char>, rest: Seq<char>, t: Seq<char>)
    requires
        forall|i: int| 0 <= i < v.len() ==> v[i] != '"',
        quiet(rest),
        rest.len() > 0,
        rest[0] == '"',
        rest.last() == '>',
    ensures
        checkbox_values(opening() + (v + rest) + t) == seq![v] + checkbox_values(t),
{
    let x = (v + rest) + t;
    assert(opening() + (v + rest) + t =~= opening() + x);
    lemma_opened(x);
    assert forall|i: int| 0 <= i < v.len() implies x[i] != '"' by {
        assert(x[i] == v[i]);
    }
    assert(x[v.len() as int] == rest[0]);
    text::lemma_first_of(x, '"', v.len() as int);
    assert(up_to_quote(x) =~= v);
    lemma_plain_is_quiet(v);
    lemma_quiet_joined(v, rest);
    lemma_pass(v + rest, t);
}

}
