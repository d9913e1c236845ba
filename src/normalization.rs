//! Canonical text: lower case, punctuation removed, stop words dropped and
//! the remaining words joined by underscores.

use vstd::prelude::*;
use crate::date::Date;
use crate::shared_types::Market;
use crate::text::{
    all_ascii, is_ascii_char, is_ascii_upper, ascii_lower, alnum_of, whitespace_of, lower_of, chars_of, string_of, to_lowercase, is_alphanumeric,
    is_whitespace, chars_eq, append_chars, copy_chars,
};

verus! {

/// Punctuation and other symbols become a space; letters, digits, whitespace
/// and hyphens stay.
pub open spec fn clean_char(c: char) -> char {
    if alnum_of(c) || whitespace_of(c) || c == '-' {
        c
    } else {
        ' '
    }
}

pub open spec fn clean_text(s: Seq<char>) -> Seq<char> {
    s.map_values(|c: char| clean_char(c))
}

pub open spec fn push_word(words: Seq<Seq<char>>, w: Seq<char>) -> Seq<Seq<char>> {
    if w.len() > 0 {
        words.push(w)
    } else {
        words
    }
}

/// Reading `s` left to right: the words completed so far and the word in
/// progress. Words are maximal runs of non-whitespace characters.
pub open spec fn split_state(s: Seq<char>) -> (Seq<Seq<char>>, Seq<char>)
    decreases s.len(),
{
    if s.len() == 0 {
        (Seq::empty(), Seq::empty())
    } else {
        let prev = split_state(s.drop_last());
        if whitespace_of(s.last()) {
            (push_word(prev.0, prev.1), Seq::empty())
        } else {
            (prev.0, prev.1.push(s.last()))
        }
    }
}

/// The whitespace-separated words of `s`.
pub open spec fn words_of(s: Seq<char>) -> Seq<Seq<char>> {
    push_word(split_state(s).0, split_state(s).1)
}

pub open spec fn is_stop_word(w: Seq<char>) -> bool {
    ||| w == "the"@
    ||| w == "will"@
    ||| w == "be"@
    ||| w == "outcome"@
    ||| w == "a"@
    ||| w == "an"@
    ||| w == "is"@
    ||| w == "of"@
    ||| w == "in"@
    ||| w == "and"@
}

/// The words that are not stop words, in order.
pub open spec fn drop_stop_words(ws: Seq<Seq<char>>) -> Seq<Seq<char>>
    decreases ws.len(),
{
    if ws.len() == 0 {
        ws
    } else {
        let prev = drop_stop_words(ws.drop_last());
        if is_stop_word(ws.last()) {
            prev
        } else {
            prev.push(ws.last())
        }
    }
}

/// The words joined by single underscores.
pub open spec fn join_words(ws: Seq<Seq<char>>) -> Seq<char>
    decreases ws.len(),
{
    if ws.len() == 0 {
        Seq::empty()
    } else if ws.len() == 1 {
        ws[0]
    } else {
        join_words(ws.drop_last()).push('_') + ws.last()
    }
}

/// Canonical form of text that is already in lower case.
pub open spec fn sanitized_lower(l: Seq<char>) -> Seq<char> {
    join_words(drop_stop_words(words_of(clean_text(l))))
}

/// Canonical form of a text.
pub open spec fn sanitized(s: Seq<char>) -> Seq<char> {
    sanitized_lower(lower_of(s))
}

fn stop_word(w: &Vec<char>) -> (r: bool)
    ensures
        r == is_stop_word(w@),
{
    chars_eq(w, &chars_of("the")) || chars_eq(w, &chars_of("will")) || chars_eq(w, &chars_of("be"))
        || chars_eq(w, &chars_of("outcome")) || chars_eq(w, &chars_of("a")) || chars_eq(
        w,
        &chars_of("an"),
    ) || chars_eq(w, &chars_of("is")) || chars_eq(w, &chars_of("of")) || chars_eq(
        w,
        &chars_of("in"),
    ) || chars_eq(w, &chars_of("and"))
}

/// Joins words with underscores.
fn join_with_underscores(words: &Vec<Vec<char>>, ghost_words: Ghost<Seq<Seq<char>>>) -> (r: Vec<char>)
    requires
        words.len() == ghost_words@.len(),
        forall|k: int| 0 <= k < words.len() ==> #[trigger] words[k]@ == ghost_words@[k],
    ensures
        r@ == join_words(ghost_words@),
{
    let ghost gw = ghost_words@;
    let mut out: Vec<char> = Vec::new();
    let mut k: usize = 0;
    while k < words.len()
        invariant
            k <= words.len(),
            words.len() == gw.len(),
            forall|j: int| 0 <= j < words.len() ==> #[trigger] words[j]@ == gw[j],
            out@ == join_words(gw.subrange(0, k as int)),
        decreases words.len() - k,
    {
        let ghost before = out@;
        assert(gw.subrange(0, k + 1).drop_last() =~= gw.subrange(0, k as int));
        if k > 0 {
            out.push('_');
        }
        append_chars(&mut out, &words[k]);
        k = k + 1;
        assert(out@ =~= join_words(gw.subrange(0, k as int)));
    }
    assert(gw.subrange(0, words.len() as int) =~= gw);
    out
}

/// Canonical form of text that is already in lower case.
pub fn sanitize_lowered(l: &Vec<char>) -> (r: Vec<char>)
    ensures
        r@ == sanitized_lower(l@),
{
    let ghost cleaned = clean_text(l@);
    let mut kept: Vec<Vec<char>> = Vec::new();
    let ghost mut gkept: Seq<Seq<char>> = Seq::empty();
    let mut cur: Vec<char> = Vec::new();
    let mut i: usize = 0;
    while i < l.len()
        invariant
            i <= l.len(),
            cleaned == clean_text(l@),
            kept.len() == gkept.len(),
            forall|j: int| 0 <= j < kept.len() ==> #[trigger] kept[j]@ == gkept[j],
            gkept == drop_stop_words(split_state(cleaned.subrange(0, i as int)).0),
            cur@ == split_state(cleaned.subrange(0, i as int)).1,
        decreases l.len() - i,
    {
        let c0 = l[i];
        let c = if is_alphanumeric(c0) || is_whitespace(c0) || c0 == '-' {
            c0
        } else {
            ' '
        };
        assert(c == clean_char(l@[i as int]));
        assert(cleaned.subrange(0, i + 1).drop_last() =~= cleaned.subrange(0, i as int));
        assert(cleaned.subrange(0, i + 1).last() == c);
        let ghost done = split_state(cleaned.subrange(0, i as int)).0;
        assert(done.push(cur@).drop_last() =~= done);
        if is_whitespace(c) {
            if cur.len() > 0 {
                if !stop_word(&cur) {
                    let w = copy_chars(&cur);
                    kept.push(w);
                    proof {
                        gkept = gkept.push(cur@);
                    }
                }
            }
            cur = Vec::new();
        } else {
            cur.push(c);
        }
        i = i + 1;
    }
    assert(cleaned.subrange(0, l.len() as int) =~= cleaned);
    let ghost done = split_state(cleaned).0;
    assert(done.push(cur@).drop_last() =~= done);
    if cur.len() > 0 {
        if !stop_word(&cur) {
            let w = copy_chars(&cur);
            kept.push(w);
            proof {
                gkept = gkept.push(cur@);
            }
        }
    }
    join_with_underscores(&kept, Ghost(gkept))
}

/// Lower case, punctuation to spaces, stop words dropped, words joined by
/// underscores.
pub fn sanitize_string(s: &str) -> (r: String)
    ensures
        r@ == sanitized(s@),
{
    let l = to_lowercase(&chars_of(s));
    let out = sanitize_lowered(&l);
    string_of(&out)
}

/// The latest end date among the markets whose grouping key is `key`.
pub open spec fn group_latest(ms: Seq<Market>, key: Seq<char>) -> Option<Date>
    decreases ms.len(),
{
    if ms.len() == 0 {
        None
    } else {
        let prev = group_latest(ms.drop_last(), key);
        let m = ms.last();
        if m.neg_risk_market_id is Some && m.neg_risk_market_id->0@ == key {
            match prev {
                Some(d) => if d.before(m.end_date) {
                    Some(m.end_date)
                } else {
                    Some(d)
                },
                None => Some(m.end_date),
            }
        } else {
            prev
        }
    }
}

/// The end date of market `i` once aligned with its group.
pub open spec fn aligned_end_date(ms: Seq<Market>, i: int) -> Date {
    match ms[i].neg_risk_market_id {
        Some(k) => match group_latest(ms, k@) {
            Some(d) => d,
            None => ms[i].end_date,
        },
        None => ms[i].end_date,
    }
}

/// `new` is `old` with end dates aligned in each group and the title and
/// condition names in canonical form; nothing else changes.
pub open spec fn normalized_market(old: Seq<Market>, i: int, new: Market) -> bool {
    let m = old[i];
    &&& new.id == m.id
    &&& new.end_date == aligned_end_date(old, i)
    &&& new.title@ == sanitized(m.title@)
    &&& new.neg_risk_market_id == m.neg_risk_market_id
    &&& new.tags == m.tags
    &&& new.conditions.len() == m.conditions.len()
    &&& forall|j: int|
        0 <= j < m.conditions.len() ==> {
            let c = #[trigger] m.conditions@[j];
            let d = new.conditions@[j];
            &&& d.name@ == sanitized(c.name@)
            &&& d.price == c.price
            &&& d.outcome == c.outcome
            &&& d.asset_id == c.asset_id
        }
}

fn group_latest_exec(ms: &Vec<Market>, key: &String) -> (r: Option<Date>)
    ensures
        r == group_latest(ms@, key@),
{
    let mut latest: Option<Date> = None;
    let mut j: usize = 0;
    while j < ms.len()
        invariant
            j <= ms.len(),
            latest == group_latest(ms@.subrange(0, j as int), key@),
        decreases ms.len() - j,
    {
        assert(ms@.subrange(0, j + 1).drop_last() =~= ms@.subrange(0, j as int));
        assert(ms@.subrange(0, j + 1).last() == ms@[j as int]);
        let m = &ms[j];
        match &m.neg_risk_market_id {
            Some(k) => {
                if *k == *key {
                    latest = match latest {
                        Some(d) => if d.is_before(&m.end_date) {
                            Some(m.end_date)
                        } else {
                            Some(d)
                        },
                        None => Some(m.end_date),
                    };
                }
            },
            None => {},
        }
        j = j + 1;
    }
    assert(ms@.subrange(0, ms.len() as int) =~= ms@);
    latest
}

/// Aligns the end dates of markets that share a grouping key to the latest
/// one in the group, then puts titles and condition names in canonical form.
pub fn normalize_markets(markets: &mut Vec<Market>)
    ensures
        final(markets).len() == old(markets).len(),
        forall|i: int|
            0 <= i < old(markets).len() ==> normalized_market(old(markets)@, i, #[trigger] final(markets)@[i]),
{
    let ghost orig = markets@;
    let n = markets.len();
    let mut dates: Vec<Date> = Vec::new();
    let mut i: usize = 0;
    while i < n
        invariant
            i <= n == markets.len(),
            markets@ == orig,
            dates.len() == i,
            forall|q: int| 0 <= q < i ==> dates@[q] == aligned_end_date(orig, q),
        decreases n - i,
    {
        let d = match &markets[i].neg_risk_market_id {
            Some(k) => match group_latest_exec(markets, k) {
                Some(d) => d,
                None => markets[i].end_date,
            },
            None => markets[i].end_date,
        };
        dates.push(d);
        i = i + 1;
    }
    let mut i: usize = 0;
    while i < n
        invariant
            i <= n == markets.len() == orig.len(),
            dates.len() == n,
            forall|q: int| 0 <= q < n ==> dates@[q] == aligned_end_date(orig, q),
            forall|q: int| 0 <= q < i ==> normalized_market(orig, q, #[trigger] markets@[q]),
            forall|q: int| i <= q < n ==> #[trigger] markets@[q] == orig[q],
        decreases n - i,
    {
        markets[i].end_date = dates[i];
        let t = sanitize_string(markets[i].title.as_str());
        markets[i].title = t;
        let nc = markets[i].conditions.len();
        let mut j: usize = 0;
        while j < nc
            invariant
                i < n == markets.len() == orig.len(),
                j <= nc == markets@[i as int].conditions.len() == orig[i as int].conditions.len(),
                markets@[i as int].id == orig[i as int].id,
                markets@[i as int].end_date == aligned_end_date(orig, i as int),
                markets@[i as int].title@ == sanitized(orig[i as int].title@),
                markets@[i as int].neg_risk_market_id == orig[i as int].neg_risk_market_id,
                markets@[i as int].tags == orig[i as int].tags,
                forall|q: int| 0 <= q < j ==> {
                    let c = #[trigger] orig[i as int].conditions@[q];
                    let d = markets@[i as int].conditions@[q];
                    &&& d.name@ == sanitized(c.name@)
                    &&& d.price == c.price
                    &&& d.outcome == c.outcome
                    &&& d.asset_id == c.asset_id
                },
                forall|q: int| j <= q < nc ==> #[trigger] markets@[i as int].conditions@[q] == orig[i as int].conditions@[q],
                forall|q: int| 0 <= q < i ==> normalized_market(orig, q, #[trigger] markets@[q]),
                forall|q: int| i < q < n ==> #[trigger] markets@[q] == orig[q],
            decreases nc - j,
        {
            let s = sanitize_string(markets[i].conditions[j].name.as_str());
            markets[i].conditions[j].name = s;
            j = j + 1;
        }
        assert(normalized_market(orig, i as int, markets@[i as int]));
        i = i + 1;
    }
}

/// The words joined by single spaces.
pub open spec fn join_spaced(ws: Seq<Seq<char>>) -> Seq<char>
    decreases ws.len(),
{
    if ws.len() == 0 {
        Seq::empty()
    } else if ws.len() == 1 {
        ws[0]
    } else {
        join_spaced(ws.drop_last()).push(' ') + ws.last()
    }
}

/// Non-empty, with no whitespace, and every character satisfying `p`.
pub open spec fn solid_word(w: Seq<char>, p: spec_fn(char) -> bool) -> bool {
    &&& w.len() > 0
    &&& forall|i: int| 0 <= i < w.len() ==> !whitespace_of(#[trigger] w[i]) && p(w[i])
}

pub open spec fn solid_words(ws: Seq<Seq<char>>, p: spec_fn(char) -> bool) -> bool {
    forall|k: int| 0 <= k < ws.len() ==> solid_word(#[trigger] ws[k], p)
}

proof fn lemma_split_state_solid(s: Seq<char>, p: spec_fn(char) -> bool)
    requires
        forall|i: int| 0 <= i < s.len() ==> p(#[trigger] s[i]),
    ensures
        solid_words(split_state(s).0, p),
        forall|i: int| 0 <= i < split_state(s).1.len() ==> !whitespace_of(#[trigger] split_state(s).1[i]) && p(split_state(s).1[i]),
    decreases s.len(),
{
    if s.len() > 0 {
        let front = s.drop_last();
        assert forall|i: int| 0 <= i < front.len() implies p(#[trigger] front[i]) by {
            assert(front[i] == s[i]);
        }
        lemma_split_state_solid(front, p);
        let prev = split_state(front);
        assert(p(s[s.len() - 1]));
        if whitespace_of(s.last()) {
            if prev.1.len() > 0 {
                assert forall|k: int| 0 <= k < prev.0.push(prev.1).len() implies solid_word(#[trigger] prev.0.push(prev.1)[k], p) by {
                    if k < prev.0.len() {
                        assert(prev.0.push(prev.1)[k] == prev.0[k]);
                    }
                }
            }
        } else {
            let cur = prev.1.push(s.last());
            assert forall|i: int| 0 <= i < cur.len() implies !whitespace_of(#[trigger] cur[i]) && p(cur[i]) by {
                if i < prev.1.len() {
                    assert(cur[i] == prev.1[i]);
                }
            }
        }
    }
}

proof fn lemma_words_solid(s: Seq<char>, p: spec_fn(char) -> bool)
    requires
        forall|i: int| 0 <= i < s.len() ==> p(#[trigger] s[i]),
    ensures
        solid_words(words_of(s), p),
{
    lemma_split_state_solid(s, p);
    let st = split_state(s);
    if st.1.len() > 0 {
        assert forall|k: int| 0 <= k < st.0.push(st.1).len() implies solid_word(#[trigger] st.0.push(st.1)[k], p) by {
            if k < st.0.len() {
                assert(st.0.push(st.1)[k] == st.0[k]);
            }
        }
    }
}

proof fn lemma_drop_stop_solid(ws: Seq<Seq<char>>, p: spec_fn(char) -> bool)
    requires
        solid_words(ws, p),
    ensures
        solid_words(drop_stop_words(ws), p),
        forall|k: int| 0 <= k < drop_stop_words(ws).len() ==> !is_stop_word(#[trigger] drop_stop_words(ws)[k]),
    decreases ws.len(),
{
    if ws.len() > 0 {
        let front = ws.drop_last();
        assert forall|k: int| 0 <= k < front.len() implies solid_word(#[trigger] front[k], p) by {
            assert(front[k] == ws[k]);
        }
        lemma_drop_stop_solid(front, p);
        let prev = drop_stop_words(front);
        assert(solid_word(ws[ws.len() - 1], p));
        if !is_stop_word(ws.last()) {
            assert forall|k: int| 0 <= k < prev.push(ws.last()).len() implies solid_word(#[trigger] prev.push(ws.last())[k], p)
                && !is_stop_word(prev.push(ws.last())[k]) by {
                if k < prev.len() {
                    assert(prev.push(ws.last())[k] == prev[k]);
                }
            }
        }
    }
}

proof fn lemma_drop_stop_none(ws: Seq<Seq<char>>)
    requires
        forall|k: int| 0 <= k < ws.len() ==> !is_stop_word(#[trigger] ws[k]),
    ensures
        drop_stop_words(ws) == ws,
    decreases ws.len(),
{
    if ws.len() > 0 {
        let front = ws.drop_last();
        assert forall|k: int| 0 <= k < front.len() implies !is_stop_word(#[trigger] front[k]) by {
            assert(front[k] == ws[k]);
        }
        lemma_drop_stop_none(front);
        assert(!is_stop_word(ws[ws.len() - 1]));
        assert(front.push(ws.last()) =~= ws);
    }
}

pub open spec fn clean_fixed(c: char) -> bool {
    clean_char(c) == c
}

proof fn lemma_clean_join(ws: Seq<Seq<char>>)
    requires
        solid_words(ws, |c: char| clean_fixed(c)),
    ensures
        clean_text(join_words(ws)) == join_spaced(ws),
    decreases ws.len(),
{
    if ws.len() == 1 {
        let w = ws[0];
        assert(solid_word(ws[0], |c: char| clean_fixed(c)));
        assert forall|i: int| 0 <= i < w.len() implies clean_text(w)[i] == w[i] by {
            assert(clean_fixed(w[i]));
        }
        assert(clean_text(w) =~= w);
    } else if ws.len() > 1 {
        let front = ws.drop_last();
        let w = ws.last();
        assert forall|k: int| 0 <= k < front.len() implies solid_word(#[trigger] front[k], |c: char| clean_fixed(c)) by {
            assert(front[k] == ws[k]);
        }
        lemma_clean_join(front);
        assert(solid_word(ws[ws.len() - 1], |c: char| clean_fixed(c)));
        assert forall|i: int| 0 <= i < w.len() implies clean_text(w)[i] == w[i] by {
            assert(clean_fixed(w[i]));
        }
        assert(clean_text(w) =~= w);
        let j = join_words(front);
        assert(clean_text(j.push('_') + w) =~= clean_text(j).push(' ') + clean_text(w));
    } else {
        assert(clean_text(join_words(ws)) =~= join_spaced(ws));
    }
}

proof fn lemma_split_append(a: Seq<char>, b: Seq<char>)
    requires
        forall|i: int| 0 <= i < b.len() ==> !whitespace_of(#[trigger] b[i]),
    ensures
        split_state(a + b) == (split_state(a).0, split_state(a).1 + b),
    decreases b.len(),
{
    if b.len() == 0 {
        assert(a + b =~= a);
        assert(split_state(a).1 + b =~= split_state(a).1);
    } else {
        let front = b.drop_last();
        assert forall|i: int| 0 <= i < front.len() implies !whitespace_of(#[trigger] front[i]) by {
            assert(front[i] == b[i]);
        }
        lemma_split_append(a, front);
        assert((a + b).drop_last() =~= a + front);
        assert((a + b).last() == b.last());
        assert(!whitespace_of(b[b.len() - 1]));
        assert((split_state(a).1 + front).push(b.last()) =~= split_state(a).1 + b);
    }
}

proof fn lemma_split_join_spaced(ws: Seq<Seq<char>>, p: spec_fn(char) -> bool)
    requires
        ws.len() > 0,
        solid_words(ws, p),
    ensures
        split_state(join_spaced(ws)) == (ws.drop_last(), ws.last()),
    decreases ws.len(),
{
    assert(solid_word(ws[ws.len() - 1], p));
    let w = ws.last();
    assert forall|i: int| 0 <= i < w.len() implies !whitespace_of(#[trigger] w[i]) by {}
    if ws.len() == 1 {
        lemma_split_append(Seq::empty(), w);
        assert(Seq::<char>::empty() + w =~= w);
        assert(ws.drop_last() =~= Seq::<Seq<char>>::empty());
        assert(Seq::<char>::empty() + w =~= ws[0]);
    } else {
        let front = ws.drop_last();
        assert forall|k: int| 0 <= k < front.len() implies solid_word(#[trigger] front[k], p) by {
            assert(front[k] == ws[k]);
        }
        lemma_split_join_spaced(front, p);
        let j = join_spaced(front);
        assert(solid_word(front[front.len() - 1], p));
        assert(j.push(' ').drop_last() =~= j);
        assert(whitespace_of(' '));
        assert(split_state(j.push(' ')) == (push_word(front.drop_last(), front.last()), Seq::<char>::empty()));
        assert(front.drop_last().push(front.last()) =~= front);
        lemma_split_append(j.push(' '), w);
        assert(Seq::<char>::empty() + w =~= w);
    }
}

proof fn lemma_words_join_spaced(ws: Seq<Seq<char>>, p: spec_fn(char) -> bool)
    requires
        solid_words(ws, p),
    ensures
        words_of(join_spaced(ws)) == ws,
{
    if ws.len() == 0 {
        assert(words_of(join_spaced(ws)) =~= ws);
    } else {
        lemma_split_join_spaced(ws, p);
        assert(solid_word(ws[ws.len() - 1], p));
        assert(ws.drop_last().push(ws.last()) =~= ws);
    }
}

proof fn lemma_clean_text_fixed(l: Seq<char>)
    ensures
        forall|i: int| 0 <= i < clean_text(l).len() ==> clean_fixed(#[trigger] clean_text(l)[i]),
{
}

/// Canonical text is its own canonical form: on text already in lower case,
/// normalizing twice gives what normalizing once gives.
pub proof fn lemma_sanitize_lowered_idempotent(l: Seq<char>)
    ensures
        sanitized_lower(sanitized_lower(l)) == sanitized_lower(l),
{
    let p = |c: char| clean_fixed(c);
    let cl = clean_text(l);
    lemma_clean_text_fixed(l);
    assert forall|i: int| 0 <= i < cl.len() implies p(#[trigger] cl[i]) by {}
    lemma_words_solid(cl, p);
    let ks = drop_stop_words(words_of(cl));
    lemma_drop_stop_solid(words_of(cl), p);
    lemma_clean_join(ks);
    lemma_words_join_spaced(ks, p);
    lemma_drop_stop_none(ks);
}

proof fn lemma_join_chars(ws: Seq<Seq<char>>, p: spec_fn(char) -> bool)
    requires
        p('_'),
        forall|k: int, i: int| 0 <= k < ws.len() && 0 <= i < ws[k].len() ==> p(#[trigger] ws[k][i]),
    ensures
        forall|i: int| 0 <= i < join_words(ws).len() ==> p(#[trigger] join_words(ws)[i]),
    decreases ws.len(),
{
    if ws.len() > 1 {
        let front = ws.drop_last();
        assert forall|k: int, i: int| 0 <= k < front.len() && 0 <= i < front[k].len() implies p(#[trigger] front[k][i]) by {
            assert(front[k] == ws[k]);
        }
        lemma_join_chars(front, p);
        let j = join_words(front);
        let w = ws.last();
        assert forall|i: int| 0 <= i < (j.push('_') + w).len() implies p(#[trigger] (j.push('_') + w)[i]) by {
            if i < j.len() {
                assert((j.push('_') + w)[i] == j[i]);
            } else if i > j.len() {
                assert((j.push('_') + w)[i] == ws[ws.len() - 1][i - j.len() - 1]);
            }
        }
    } else if ws.len() == 1 {
        assert forall|i: int| 0 <= i < ws[0].len() implies p(#[trigger] ws[0][i]) by {}
    }
}

pub open spec fn lower_ascii_char(c: char) -> bool {
    is_ascii_char(c) && !is_ascii_upper(c)
}

/// Normalizing ASCII text twice gives what normalizing it once gives.
pub proof fn lemma_sanitize_idempotent_ascii(s: Seq<char>)
    requires
        all_ascii(s),
    ensures
        sanitized(sanitized(s)) == sanitized(s),
{
    reveal(lower_of);
    let l = lower_of(s);
    assert(l == s.map_values(|c: char| ascii_lower(c)));
    let q = |c: char| lower_ascii_char(c) && clean_fixed(c);
    let cl = clean_text(l);
    lemma_clean_text_fixed(l);
    assert forall|i: int| 0 <= i < cl.len() implies q(#[trigger] cl[i]) by {
        assert(is_ascii_char(s[i]));
        assert(lower_ascii_char(l[i]));
    }
    lemma_words_solid(cl, q);
    let ks = drop_stop_words(words_of(cl));
    lemma_drop_stop_solid(words_of(cl), q);
    let r = |c: char| lower_ascii_char(c);
    assert forall|k: int, i: int| 0 <= k < ks.len() && 0 <= i < ks[k].len() implies r(#[trigger] ks[k][i]) by {
        assert(solid_word(ks[k], q));
        assert(q(ks[k][i]));
    }
    lemma_join_chars(ks, r);
    let out = join_words(ks);
    assert(out == sanitized(s));
    assert(all_ascii(out));
    assert(out.map_values(|c: char| ascii_lower(c)) =~= out);
    assert(lower_of(out) == out);
    lemma_sanitize_lowered_idempotent(l);
}

pub open spec fn in_group(m: Market, key: Seq<char>) -> bool {
    m.neg_risk_market_id is Some && m.neg_risk_market_id->0@ == key
}

proof fn lemma_group_latest_member(ms: Seq<Market>, key: Seq<char>, i: int)
    requires
        0 <= i < ms.len(),
        in_group(ms[i], key),
    ensures
        group_latest(ms, key) is Some,
    decreases ms.len(),
{
    if i < ms.len() - 1 {
        lemma_group_latest_member(ms.drop_last(), key, i);
    }
}

proof fn lemma_group_latest_uniform(ms: Seq<Market>, key: Seq<char>, d: Date)
    requires
        forall|j: int| 0 <= j < ms.len() && in_group(#[trigger] ms[j], key) ==> ms[j].end_date == d,
    ensures
        group_latest(ms, key) is None || group_latest(ms, key) == Some(d),
    decreases ms.len(),
{
    if ms.len() > 0 {
        let front = ms.drop_last();
        assert forall|j: int| 0 <= j < front.len() && in_group(#[trigger] front[j], key) implies front[j].end_date == d by {
            assert(front[j] == ms[j]);
        }
        lemma_group_latest_uniform(front, key, d);
        assert(ms.last() == ms[ms.len() - 1]);
    }
}

/// Normalizing a catalog whose titles and condition names are ASCII a second
/// time changes nothing: dates, titles and condition names stay as the first
/// pass left them.
pub proof fn lemma_normalize_markets_idempotent(old: Seq<Market>, once: Seq<Market>, twice: Seq<Market>)
    requires
        once.len() == old.len(),
        twice.len() == old.len(),
        forall|i: int| 0 <= i < old.len() ==> normalized_market(old, i, #[trigger] once[i]),
        forall|i: int| 0 <= i < old.len() ==> normalized_market(once, i, #[trigger] twice[i]),
        forall|i: int| 0 <= i < old.len() ==> all_ascii((#[trigger] old[i]).title@),
        forall|i: int, j: int|
            0 <= i < old.len() && 0 <= j < old[i].conditions.len() ==> all_ascii((#[trigger] old[i].conditions@[j]).name@),
    ensures
        forall|i: int|
            0 <= i < old.len() ==> {
                &&& (#[trigger] twice[i]).id == once[i].id
                &&& twice[i].end_date == once[i].end_date
                &&& twice[i].title@ == once[i].title@
                &&& twice[i].conditions.len() == once[i].conditions.len()
                &&& forall|j: int| 0 <= j < once[i].conditions.len() ==> (#[trigger] twice[i].conditions@[j]).name@
                    == once[i].conditions@[j].name@
            },
{
    assert forall|i: int| 0 <= i < old.len() implies {
        &&& (#[trigger] twice[i]).id == once[i].id
        &&& twice[i].end_date == once[i].end_date
        &&& twice[i].title@ == once[i].title@
        &&& twice[i].conditions.len() == once[i].conditions.len()
        &&& forall|j: int| 0 <= j < once[i].conditions.len() ==> (#[trigger] twice[i].conditions@[j]).name@
            == once[i].conditions@[j].name@
    } by {
        assert(normalized_market(old, i, once[i]));
        assert(normalized_market(once, i, twice[i]));
        lemma_sanitize_idempotent_ascii(old[i].title@);
        assert forall|j: int| 0 <= j < once[i].conditions.len() implies (#[trigger] twice[i].conditions@[j]).name@
            == once[i].conditions@[j].name@ by {
            let c = old[i].conditions@[j];
            assert(all_ascii(c.name@));
            lemma_sanitize_idempotent_ascii(c.name@);
        }
        match old[i].neg_risk_market_id {
            Some(k) => {
                lemma_group_latest_member(old, k@, i);
                let d = group_latest(old, k@)->0;
                assert(once[i].end_date == d);
                assert forall|j: int| 0 <= j < once.len() && in_group(#[trigger] once[j], k@) implies once[j].end_date == d by {
                    assert(normalized_market(old, j, once[j]));
                }
                lemma_group_latest_uniform(once, k@, d);
                lemma_group_latest_member(once, k@, i);
            },
            None => {},
        }
    }
}

} // verus!
