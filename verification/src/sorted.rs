//! Sets of names kept as sorted lists.

use vstd::prelude::*;
use vstd::string::StringSliceAdditionalSpecFns;
use vstd::utf8::encode_utf8;

use crate::bytecode::chunk::string_views;
use crate::text::lemma_utf8_injective;

verus! {

/// Lexicographic order of bytes.
pub open spec fn bytes_before(a: Seq<u8>, b: Seq<u8>) -> bool
    decreases a.len(),
{
    if b.len() == 0 {
        false
    } else if a.len() == 0 {
        true
    } else {
        a[0] < b[0] || (a[0] == b[0] && bytes_before(a.drop_first(), b.drop_first()))
    }
}

/// The order of texts: that of their UTF-8 encodings.
pub open spec fn before(a: Seq<char>, b: Seq<char>) -> bool {
    bytes_before(encode_utf8(a), encode_utf8(b))
}

/// Each text stands before those behind it.
pub open spec fn ascending(names: Seq<Seq<char>>) -> bool {
    forall|i: int, j: int|
        0 <= i < j < names.len() ==> before(#[trigger] names[i], #[trigger] names[j])
}

/// A list holds the texts of a set, each once, in order.
pub open spec fn lists(names: Seq<Seq<char>>, set: Set<Seq<char>>) -> bool {
    &&& ascending(names)
    &&& forall|name: Seq<char>| #[trigger] names.contains(name) <==> set.contains(name)
}

proof fn lemma_bytes_order(a: Seq<u8>, b: Seq<u8>)
    ensures
        !(bytes_before(a, b) && bytes_before(b, a)),
        a != b ==> bytes_before(a, b) || bytes_before(b, a),
        !bytes_before(a, a),
    decreases a.len() + b.len(),
{
    if a.len() > 0 && b.len() > 0 {
        lemma_bytes_order(a.drop_first(), b.drop_first());
        if a[0] == b[0] && a.drop_first() == b.drop_first() {
            assert(a =~= seq![a[0]] + a.drop_first());
            assert(b =~= seq![b[0]] + b.drop_first());
        }
    } else if a.len() == 0 && b.len() == 0 {
        assert(a =~= b);
    }
    if a.len() > 0 {
        lemma_bytes_irreflexive(a);
    }
}

proof fn lemma_bytes_irreflexive(a: Seq<u8>)
    ensures
        !bytes_before(a, a),
    decreases a.len(),
{
    if a.len() > 0 {
        lemma_bytes_irreflexive(a.drop_first());
    }
}

proof fn lemma_bytes_transitive(a: Seq<u8>, b: Seq<u8>, c: Seq<u8>)
    requires
        bytes_before(a, b),
        bytes_before(b, c),
    ensures
        bytes_before(a, c),
    decreases a.len(),
{
    if a.len() > 0 && a[0] == b[0] && b[0] == c[0] {
        lemma_bytes_transitive(a.drop_first(), b.drop_first(), c.drop_first());
    }
}

/// Different texts are ordered one way and not the other.
pub proof fn texts_are_ordered(a: Seq<char>, b: Seq<char>)
    ensures
        !(before(a, b) && before(b, a)),
        a == b ==> !before(a, b),
        a != b ==> before(a, b) || before(b, a),
{
    lemma_bytes_order(encode_utf8(a), encode_utf8(b));
    if a != b && encode_utf8(a) == encode_utf8(b) {
        lemma_utf8_injective(a, b);
    }
}

/// The order of texts is transitive.
pub proof fn text_order_is_transitive(a: Seq<char>, b: Seq<char>, c: Seq<char>)
    requires
        before(a, b),
        before(b, c),
    ensures
        before(a, c),
{
    lemma_bytes_transitive(encode_utf8(a), encode_utf8(b), encode_utf8(c));
}

/// Only one list holds the texts of a set in order.
pub proof fn sorted_list_of_a_set_is_unique(
    a: Seq<Seq<char>>,
    b: Seq<Seq<char>>,
    set: Set<Seq<char>>,
)
    requires
        lists(a, set),
        lists(b, set),
    ensures
        a == b,
    decreases a.len(),
{
    if a.len() == 0 {
        if b.len() > 0 {
            assert(b.contains(b[0]));
            assert(a.contains(b[0]));
        }
        assert(a =~= b);
    } else {
        assert(a.contains(a[0]));
        assert(b.contains(a[0]));
        assert(b.contains(b[0]));
        assert(a.contains(b[0]));
        let i = choose|i: int| 0 <= i < a.len() && a[i] == b[0];
        let j = choose|j: int| 0 <= j < b.len() && b[j] == a[0];
        texts_are_ordered(a[0], b[0]);
        assert(a[0] == b[0]) by {
            if i > 0 {
                assert(before(a[0], a[i]));
            }
            if j > 0 {
                assert(before(b[0], b[j]));
            }
        }
        let rest = set.remove(a[0]);
        assert forall|name: Seq<char>| #[trigger] a.drop_first().contains(name) <==> rest.contains(
            name,
        ) by {
            lemma_rest_contains(a, name);
        }
        assert forall|name: Seq<char>| #[trigger] b.drop_first().contains(name) <==> rest.contains(
            name,
        ) by {
            lemma_rest_contains(b, name);
        }
        assert(ascending(a.drop_first()));
        assert(ascending(b.drop_first()));
        sorted_list_of_a_set_is_unique(a.drop_first(), b.drop_first(), rest);
        assert(a =~= seq![a[0]] + a.drop_first());
        assert(b =~= seq![b[0]] + b.drop_first());
    }
}

/// Behind its first text, a sorted list holds its other texts.
proof fn lemma_rest_contains(names: Seq<Seq<char>>, name: Seq<char>)
    requires
        names.len() > 0,
        ascending(names),
    ensures
        names.drop_first().contains(name) <==> names.contains(name) && name != names[0],
{
    let rest = names.drop_first();
    if rest.contains(name) {
        let i = choose|i: int| 0 <= i < rest.len() && rest[i] == name;
        assert(names[i + 1] == name);
        assert(before(names[0], names[i + 1]));
        texts_are_ordered(names[0], name);
    }
    if names.contains(name) && name != names[0] {
        let i = choose|i: int| 0 <= i < names.len() && names[i] == name;
        assert(rest[i - 1] == name);
    }
}

/// Whether one text stands before another.
fn is_before(a: &str, b: &str) -> (found: bool)
    ensures
        found == before(a@, b@),
{
    let x = a.as_bytes();
    let y = b.as_bytes();
    let mut i: usize = 0;
    assert(x@.skip(0) =~= x@);
    assert(y@.skip(0) =~= y@);
    while i < x.len() && i < y.len()
        invariant
            i <= x@.len(),
            i <= y@.len(),
            x@ == encode_utf8(a@),
            y@ == encode_utf8(b@),
            bytes_before(x@, y@) == bytes_before(x@.skip(i as int), y@.skip(i as int)),
        decreases x.len() - i,
    {
        assert(x@.skip(i as int).drop_first() =~= x@.skip(i + 1));
        assert(y@.skip(i as int).drop_first() =~= y@.skip(i + 1));
        if x[i] < y[i] {
            return true;
        }
        if y[i] < x[i] {
            return false;
        }
        i = i + 1;
    }
    i < y.len()
}

/// Adds a name to a sorted list, unless it is there.
pub(crate) fn insert_name(names: &mut Vec<String>, name: &str, set: Ghost<Set<Seq<char>>>)
    requires
        lists(string_views(old(names)@), set@),
    ensures
        lists(string_views(final(names)@), set@.insert(name@)),
{
    let ghost list = string_views(names@);
    let mut at: usize = 0;
    while at < names.len() && is_before(names[at].as_str(), name)
        invariant
            at <= names@.len(),
            names@ == old(names)@,
            list == string_views(names@),
            forall|k: int| 0 <= k < at ==> before(#[trigger] list[k], name@),
        decreases names.len() - at,
    {
        assert(list[at as int] == names@[at as int]@);
        at = at + 1;
    }
    if at < names.len() {
        assert(list[at as int] == names@[at as int]@);
        if !is_before(name, names[at].as_str()) {
            proof {
                texts_are_ordered(name@, list[at as int]);
                assert(list.contains(name@));
                assert(set@.insert(name@) =~= set@);
            }
            return;
        }
    }
    names.insert(at, name.to_owned());
    let ghost longer = string_views(names@);
    proof {
        assert(longer =~= list.insert(at as int, name@));
        assert forall|i: int, j: int| 0 <= i < j < longer.len() implies before(
            #[trigger] longer[i],
            #[trigger] longer[j],
        ) by {
            if i < at && j > at {
                assert(before(list[i], list[j - 1]));
            } else if i == at {
                if j - 1 > at {
                    assert(before(list[at as int], list[j - 1]));
                    text_order_is_transitive(name@, list[at as int], list[j - 1]);
                }
            } else if i > at {
                assert(before(list[i - 1], list[j - 1]));
            } else if j < at {
                assert(before(list[i], list[j]));
            }
        }
        assert forall|other: Seq<char>| #[trigger] longer.contains(other) <==> set@.insert(
            name@,
        ).contains(other) by {
            if longer.contains(other) && other != name@ {
                let i = choose|i: int| 0 <= i < longer.len() && longer[i] == other;
                if i < at {
                    assert(list[i] == other);
                } else {
                    assert(list[i - 1] == other);
                }
                assert(list.contains(other));
            }
            if set@.contains(other) {
                assert(list.contains(other));
                let i = choose|i: int| 0 <= i < list.len() && list[i] == other;
                if i < at {
                    assert(longer[i] == other);
                } else {
                    assert(longer[i + 1] == other);
                }
            }
            if other == name@ {
                assert(longer[at as int] == other);
            }
        }
    }
}

} // verus!
