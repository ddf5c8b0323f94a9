//! Lists of key and value pairs.

use vstd::prelude::*;

use crate::text;

verus! {

/// The value of the first pair whose key is `key`.
pub open spec fn first_value(p: Seq<(Seq<char>, Seq<char>)>, key: Seq<char>) -> Option<Seq<char>>
    decreases p.len(),
{
    if p.len() == 0 {
        None
    } else if p[0].0 == key {
        Some(p[0].1)
    } else {
        first_value(p.drop_first(), key)
    }
}

/// The value of the last pair whose key is `key`.
pub open spec fn last_value(p: Seq<(Seq<char>, Seq<char>)>, key: Seq<char>) -> Option<Seq<char>>
    decreases p.len(),
{
    if p.len() == 0 {
        None
    } else if p.last().0 == key {
        Some(p.last().1)
    } else {
        last_value(p.drop_last(), key)
    }
}

/// Whether some pair has the key `key`.
pub open spec fn has_key(p: Seq<(Seq<char>, Seq<char>)>, key: Seq<char>) -> bool {
    exists|i: int| 0 <= i < p.len() && (#[trigger] p[i]).0 == key
}

/// The position of the first pair whose key is `key`.
pub fn first_index(v: &Vec<(String, String)>, key: &str) -> (r: Option<usize>)
    ensures
        match r {
            Some(i) => i < v@.len() && v@[i as int].0@ == key@ && (forall|j: int|
                0 <= j < i ==> (#[trigger] v@[j]).0@ != key@) && first_value(text::pairs(v@), key@)
                == Some(v@[i as int].1@),
            None => (forall|j: int| 0 <= j < v@.len() ==> (#[trigger] v@[j]).0@ != key@)
                && first_value(text::pairs(v@), key@) is None,
        },
{
    let mut i: usize = 0;
    assert(text::pairs(v@).skip(0) =~= text::pairs(v@));
    while i < v.len()
        invariant
            i <= v@.len(),
            forall|j: int| 0 <= j < i ==> (#[trigger] v@[j]).0@ != key@,
            first_value(text::pairs(v@), key@) == first_value(text::pairs(v@).skip(i as int), key@),
        decreases v@.len() - i,
    {
        let ghost rest = text::pairs(v@).skip(i as int);
        assert(rest[0] == (v@[i as int].0@, v@[i as int].1@));
        if text::same(v[i].0.as_str(), key) {
            return Some(i);
        }
        assert(rest.drop_first() =~= text::pairs(v@).skip(i + 1));
        i += 1;
    }
    None
}

/// The position of the last pair whose key is `key`.
pub fn last_index(v: &Vec<(String, String)>, key: &str) -> (r: Option<usize>)
    ensures
        match r {
            Some(i) => i < v@.len() && last_value(text::pairs(v@), key@) == Some(v@[i as int].1@),
            None => last_value(text::pairs(v@), key@) is None,
        },
{
    let mut n: usize = v.len();
    assert(text::pairs(v@).take(n as int) =~= text::pairs(v@));
    while n > 0
        invariant
            n <= v@.len(),
            last_value(text::pairs(v@), key@) == last_value(text::pairs(v@).take(n as int), key@),
        decreases n,
    {
        let ghost front = text::pairs(v@).take(n as int);
        assert(front.last() == (v@[n - 1].0@, v@[n - 1].1@));
        if text::same(v[n - 1].0.as_str(), key) {
            return Some(n - 1);
        }
        assert(front.drop_last() =~= text::pairs(v@).take(n - 1));
        n -= 1;
    }
    None
}

/// Whether some pair has the key `key`.
pub fn contains_key(v: &Vec<(String, String)>, key: &str) -> (r: bool)
    ensures
        r == has_key(text::pairs(v@), key@),
{
    match first_index(v, key) {
        Some(i) => {
            assert(text::pairs(v@)[i as int].0 == key@);
            true
        },
        None => {
            assert forall|i: int| 0 <= i < text::pairs(v@).len() implies (
            #[trigger] text::pairs(v@)[i]).0 != key@ by {
                assert(v@[i].0@ != key@);
            }
            false
        },
    }
}

/// Where a key stands in several pairs, the first value is that of the first of them, and the
/// last value that of the last.
pub proof fn law_first_and_last_value(
    front: Seq<(Seq<char>, Seq<char>)>,
    key: Seq<char>,
    value: Seq<char>,
    back: Seq<(Seq<char>, Seq<char>)>,
)
    ensures
        !has_key(front, key) ==> first_value(front + seq![(key, value)] + back, key) == Some(value),
        !has_key(back, key) ==> last_value(front + seq![(key, value)] + back, key) == Some(value),
{
    if !has_key(front, key) {
        lemma_first_value_behind(front, key, value, back);
    }
    if !has_key(back, key) {
        lemma_last_value_before(front, key, value, back);
    }
}

proof fn lemma_first_value_behind(
    front: Seq<(Seq<char>, Seq<char>)>,
    key: Seq<char>,
    value: Seq<char>,
    back: Seq<(Seq<char>, Seq<char>)>,
)
    requires
        !has_key(front, key),
    ensures
        first_value(front + seq![(key, value)] + back, key) == Some(value),
    decreases front.len(),
{
    let all = front + seq![(key, value)] + back;
    if front.len() == 0 {
        assert(all[0] == (key, value));
    } else {
        assert(all[0] == front[0]);
        assert(all.drop_first() =~= front.drop_first() + seq![(key, value)] + back);
        assert(!has_key(front.drop_first(), key)) by {
            assert forall|i: int| 0 <= i < front.drop_first().len() implies (
            #[trigger] front.drop_first()[i]).0 != key by {
                assert(front[i + 1].0 != key);
            }
        }
        lemma_first_value_behind(front.drop_first(), key, value, back);
    }
}

proof fn lemma_last_value_before(
    front: Seq<(Seq<char>, Seq<char>)>,
    key: Seq<char>,
    value: Seq<char>,
    back: Seq<(Seq<char>, Seq<char>)>,
)
    requires
        !has_key(back, key),
    ensures
        last_value(front + seq![(key, value)] + back, key) == Some(value),
    decreases back.len(),
{
    let all = front + seq![(key, value)] + back;
    if back.len() == 0 {
        assert(all.last() == (key, value));
    } else {
        assert(all.last() == back.last());
        assert(back[back.len() - 1].0 != key);
        assert(all.drop_last() =~= front + seq![(key, value)] + back.drop_last());
        assert(!has_key(back.drop_last(), key)) by {
            assert forall|i: int| 0 <= i < back.drop_last().len() implies (
            #[trigger] back.drop_last()[i]).0 != key by {
                assert(back[i].0 != key);
            }
        }
        lemma_last_value_before(front, key, value, back.drop_last());
    }
}

/// A key that stands in no pair has no value.
pub proof fn law_unknown_key_has_no_value(p: Seq<(Seq<char>, Seq<char>)>, key: Seq<char>)
    requires
        !has_key(p, key),
    ensures
        first_value(p, key) is None,
        last_value(p, key) is None,
    decreases p.len(),
{
    if p.len() > 0 {
        assert(p[0].0 != key);
        assert(p[p.len() - 1].0 != key);
        assert(!has_key(p.drop_first(), key)) by {
            assert forall|i: int| 0 <= i < p.drop_first().len() implies (
            #[trigger] p.drop_first()[i]).0 != key by {
                assert(p[i + 1].0 != key);
            }
        }
        assert(!has_key(p.drop_last(), key)) by {
            assert forall|i: int| 0 <= i < p.drop_last().len() implies (
            #[trigger] p.drop_last()[i]).0 != key by {
                assert(p[i].0 != key);
            }
        }
        law_unknown_key_has_no_value(p.drop_first(), key);
        law_unknown_key_has_no_value(p.drop_last(), key);
    }
}

}
