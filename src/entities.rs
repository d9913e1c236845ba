//! Named entities of a closed vocabulary, found in normalized titles.

use vstd::prelude::*;
use crate::text::{alnum_of, chars_of, is_alphanumeric, chars_eq};

verus! {

/// Number of words in the vocabulary.
pub const VOCABULARY_SIZE: usize = 18;

/// The vocabulary of candidate entities.
pub open spec fn keyword(k: int) -> Seq<char> {
    if k == 0 {
        "trump"@
    } else if k == 1 {
        "biden"@
    } else if k == 2 {
        "harris"@
    } else if k == 3 {
        "walz"@
    } else if k == 4 {
        "vance"@
    } else if k == 5 {
        "bitcoin"@
    } else if k == 6 {
        "eth"@
    } else if k == 7 {
        "solana"@
    } else if k == 8 {
        "fed"@
    } else if k == 9 {
        "inflation"@
    } else if k == 10 {
        "lakers"@
    } else if k == 11 {
        "warriors"@
    } else if k == 12 {
        "celtics"@
    } else if k == 13 {
        "knicks"@
    } else if k == 14 {
        "iran"@
    } else if k == 15 {
        "israel"@
    } else if k == 16 {
        "ukraine"@
    } else {
        "russia"@
    }
}

pub fn keyword_chars(k: usize) -> (r: Vec<char>)
    requires
        k < VOCABULARY_SIZE,
    ensures
        r@ == keyword(k as int),
{
    let w = if k == 0 {
        "trump"
    } else if k == 1 {
        "biden"
    } else if k == 2 {
        "harris"
    } else if k == 3 {
        "walz"
    } else if k == 4 {
        "vance"
    } else if k == 5 {
        "bitcoin"
    } else if k == 6 {
        "eth"
    } else if k == 7 {
        "solana"
    } else if k == 8 {
        "fed"
    } else if k == 9 {
        "inflation"
    } else if k == 10 {
        "lakers"
    } else if k == 11 {
        "warriors"
    } else if k == 12 {
        "celtics"
    } else if k == 13 {
        "knicks"
    } else if k == 14 {
        "iran"
    } else if k == 15 {
        "israel"
    } else if k == 16 {
        "ukraine"
    } else {
        "russia"
    };
    chars_of(w)
}

/// Reading `s` left to right: the underscore-separated parts completed so
/// far and the part in progress.
pub open spec fn part_state(s: Seq<char>) -> (Seq<Seq<char>>, Seq<char>)
    decreases s.len(),
{
    if s.len() == 0 {
        (Seq::empty(), Seq::empty())
    } else {
        let prev = part_state(s.drop_last());
        if s.last() == '_' {
            (prev.0.push(prev.1), Seq::empty())
        } else {
            (prev.0, prev.1.push(s.last()))
        }
    }
}

/// The parts of `s` between underscores, empty ones included.
pub open spec fn underscore_parts(s: Seq<char>) -> Seq<Seq<char>> {
    part_state(s).0.push(part_state(s).1)
}

pub open spec fn trim_front(w: Seq<char>) -> Seq<char>
    decreases w.len(),
{
    if w.len() > 0 && !alnum_of(w[0]) {
        trim_front(w.drop_first())
    } else {
        w
    }
}

pub open spec fn trim_back(w: Seq<char>) -> Seq<char>
    decreases w.len(),
{
    if w.len() > 0 && !alnum_of(w.last()) {
        trim_back(w.drop_last())
    } else {
        w
    }
}

/// `w` without the non-alphanumeric characters at either end.
pub open spec fn trim_edges(w: Seq<char>) -> Seq<char> {
    trim_back(trim_front(w))
}

pub open spec fn part_names(parts: Seq<Seq<char>>, k: int) -> bool {
    exists|j: int| 0 <= j < parts.len() && #[trigger] trim_edges(parts[j]) == keyword(k)
}

/// The title names vocabulary word `k`.
pub open spec fn mentions(t: Seq<char>, k: int) -> bool {
    part_names(underscore_parts(t), k)
}

/// Which vocabulary words the title names.
pub open spec fn entity_mask(t: Seq<char>) -> Seq<bool> {
    Seq::new(VOCABULARY_SIZE as nat, |k: int| mentions(t, k))
}

fn trim_edges_exec(w: &Vec<char>) -> (r: Vec<char>)
    ensures
        r@ == trim_edges(w@),
{
    let mut a: usize = 0;
    assert(w@.subrange(0, w.len() as int) =~= w@);
    while a < w.len() && !is_alphanumeric(w[a])
        invariant
            a <= w.len(),
            trim_front(w@) == trim_front(w@.subrange(a as int, w.len() as int)),
        decreases w.len() - a,
    {
        assert(w@.subrange(a as int, w.len() as int).drop_first() =~= w@.subrange(
            a + 1,
            w.len() as int,
        ));
        a = a + 1;
    }
    let ghost front = w@.subrange(a as int, w.len() as int);
    let mut b: usize = w.len();
    while b > a && !is_alphanumeric(w[b - 1])
        invariant
            a <= b <= w.len(),
            front == w@.subrange(a as int, w.len() as int),
            trim_front(w@) == front,
            trim_back(front) == trim_back(w@.subrange(a as int, b as int)),
        decreases b,
    {
        assert(w@.subrange(a as int, b as int).drop_last() =~= w@.subrange(a as int, b - 1));
        b = b - 1;
    }
    let mut r: Vec<char> = Vec::new();
    let mut j = a;
    while j < b
        invariant
            a <= j <= b <= w.len(),
            r@ == w@.subrange(a as int, j as int),
        decreases b - j,
    {
        r.push(w[j]);
        j = j + 1;
        assert(r@ =~= w@.subrange(a as int, j as int));
    }
    r
}

/// Marks in `mask` each vocabulary word that `part`, trimmed, equals.
fn mark_part(mask: &mut Vec<bool>, part: &Vec<char>, ghost_done: Ghost<Seq<Seq<char>>>)
    requires
        old(mask).len() == VOCABULARY_SIZE,
        forall|k: int| 0 <= k < VOCABULARY_SIZE ==> old(mask)@[k] == part_names(ghost_done@, k),
    ensures
        final(mask).len() == VOCABULARY_SIZE,
        forall|k: int|
            0 <= k < VOCABULARY_SIZE ==> final(mask)@[k] == part_names(ghost_done@.push(part@), k),
{
    let ghost done = ghost_done@;
    let ghost all = done.push(part@);
    let t = trim_edges_exec(part);
    let mut k: usize = 0;
    while k < VOCABULARY_SIZE
        invariant
            k <= VOCABULARY_SIZE,
            mask.len() == VOCABULARY_SIZE,
            t@ == trim_edges(part@),
            all == done.push(part@),
            forall|q: int| 0 <= q < k ==> mask@[q] == part_names(all, q),
            forall|q: int| k <= q < VOCABULARY_SIZE ==> mask@[q] == part_names(done, q),
        decreases VOCABULARY_SIZE - k,
    {
        let kw = keyword_chars(k);
        let hit = chars_eq(&t, &kw);
        proof {
            assert(all[done.len() as int] == part@);
            if part_names(done, k as int) {
                let j = choose|j: int| 0 <= j < done.len() && #[trigger] trim_edges(done[j]) == keyword(k as int);
                assert(all[j] == done[j]);
            }
            if part_names(all, k as int) && !hit {
                let j = choose|j: int| 0 <= j < all.len() && #[trigger] trim_edges(all[j]) == keyword(k as int);
                assert(j < done.len());
                assert(all[j] == done[j]);
            }
        }
        let old_v = mask[k];
        mask.set(k, old_v || hit);
        k = k + 1;
    }
}

/// Which vocabulary words the title names.
pub fn extract_entities(t: &Vec<char>) -> (r: Vec<bool>)
    ensures
        r@ == entity_mask(t@),
{
    let mut mask: Vec<bool> = Vec::new();
    let mut k: usize = 0;
    while k < VOCABULARY_SIZE
        invariant
            k <= VOCABULARY_SIZE,
            mask.len() == k,
            forall|q: int| 0 <= q < k ==> !mask@[q],
        decreases VOCABULARY_SIZE - k,
    {
        mask.push(false);
        k = k + 1;
    }
    let ghost mut done: Seq<Seq<char>> = Seq::empty();
    let mut cur: Vec<char> = Vec::new();
    let mut i: usize = 0;
    while i < t.len()
        invariant
            i <= t.len(),
            mask.len() == VOCABULARY_SIZE,
            done == part_state(t@.subrange(0, i as int)).0,
            cur@ == part_state(t@.subrange(0, i as int)).1,
            forall|q: int| 0 <= q < VOCABULARY_SIZE ==> mask@[q] == part_names(done, q),
        decreases t.len() - i,
    {
        assert(t@.subrange(0, i + 1).drop_last() =~= t@.subrange(0, i as int));
        if t[i] == '_' {
            mark_part(&mut mask, &cur, Ghost(done));
            proof {
                done = done.push(cur@);
            }
            cur = Vec::new();
        } else {
            cur.push(t[i]);
        }
        i = i + 1;
    }
    assert(t@.subrange(0, t.len() as int) =~= t@);
    mark_part(&mut mask, &cur, Ghost(done));
    assert(mask@ =~= entity_mask(t@));
    mask
}

/// Some vocabulary word is named by both masks.
pub open spec fn masks_overlap(a: Seq<bool>, b: Seq<bool>) -> bool {
    exists|k: int| 0 <= k < VOCABULARY_SIZE && #[trigger] a[k] && b[k]
}

pub fn shares_entity(a: &Vec<bool>, b: &Vec<bool>) -> (r: bool)
    requires
        a.len() == VOCABULARY_SIZE,
        b.len() == VOCABULARY_SIZE,
    ensures
        r == masks_overlap(a@, b@),
{
    let mut k: usize = 0;
    while k < VOCABULARY_SIZE
        invariant
            k <= VOCABULARY_SIZE,
            a.len() == VOCABULARY_SIZE,
            b.len() == VOCABULARY_SIZE,
            forall|q: int| 0 <= q < k ==> !(a@[q] && b@[q]),
        decreases VOCABULARY_SIZE - k,
    {
        if a[k] && b[k] {
            return true;
        }
        k = k + 1;
    }
    false
}

} // verus!
