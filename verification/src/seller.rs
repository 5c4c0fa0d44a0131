use vstd::prelude::*;

use crate::text::views_of;

verus! {

/// `p` occurs as a contiguous run of characters inside `s`.
pub open spec fn contains_sub(s: Seq<char>, p: Seq<char>) -> bool {
    exists|i: int| 0 <= i && i + p.len() <= s.len() && #[trigger] s.subrange(i, i + p.len()) == p
}

/// Relies on str::contains with a string pattern: it returns whether the
/// pattern matches a contiguous sub-slice of the text.
#[verifier::external_body]
fn str_contains(s: &str, pat: &str) -> (r: bool)
    ensures
        r == contains_sub(s@, pat@),
{
    s.contains(pat)
}

/// The phrases of `v` that contain `p`, in order. An empty `p` is contained
/// in everything, so it keeps the whole pool.
pub open spec fn matching(v: Seq<Seq<char>>, p: Seq<char>) -> Seq<Seq<char>>
    decreases v.len(),
{
    if v.len() == 0 {
        Seq::empty()
    } else if contains_sub(v[0], p) {
        seq![v[0]] + matching(v.drop_first(), p)
    } else {
        matching(v.drop_first(), p)
    }
}

/// The candidate pool for one keyword: every common phrase when the keyword
/// is empty, else the common phrases that contain it. The random choice of
/// a handful among the pool is the response generator's business and stays
/// outside this crate.
pub fn sell_pool(common: &Vec<String>, keyword: &str) -> (r: Vec<String>)
    ensures
        views_of(r@) == matching(views_of(common@), keyword@),
{
    let n = common.len();
    let mut r: Vec<String> = Vec::new();
    let mut i: usize = 0;
    proof {
        assert(views_of(common@).skip(0) =~= views_of(common@));
        assert(views_of(r@) + matching(views_of(common@).skip(0), keyword@) =~~= matching(
            views_of(common@),
            keyword@,
        ));
    }
    while i < n
        invariant
            0 <= i <= n,
            n == common@.len(),
            matching(views_of(common@), keyword@) =~~= views_of(r@) + matching(
                views_of(common@).skip(i as int),
                keyword@,
            ),
        decreases n - i,
    {
        let ghost rest = views_of(common@).skip(i as int);
        proof {
            assert(rest[0] == common@[i as int]@);
            assert(rest.drop_first() =~= views_of(common@).skip(i as int + 1));
        }
        if str_contains(common[i].as_str(), keyword) {
            let phrase = common[i].clone();
            proof {
                assert(views_of(r@.push(phrase)) =~~= views_of(r@) + seq![phrase@]);
            }
            r.push(phrase);
        }
        i = i + 1;
    }
    proof {
        assert(views_of(common@).skip(n as int) =~= Seq::<Seq<char>>::empty());
        assert(views_of(r@) =~~= matching(views_of(common@), keyword@));
    }
    r
}

/// With an empty keyword the pool keeps every phrase.
pub proof fn lemma_empty_keyword_keeps_all(v: Seq<Seq<char>>, p: Seq<char>)
    requires
        p.len() == 0,
    ensures
        matching(v, p) == v,
    decreases v.len(),
{
    if v.len() == 0 {
        assert(matching(v, p) =~~= v);
    } else {
        assert(v[0].subrange(0, 0 + p.len() as int) =~= p);
        assert(contains_sub(v[0], p));
        lemma_empty_keyword_keeps_all(v.drop_first(), p);
        assert(seq![v[0]] + v.drop_first() =~~= v);
    }
}

} // verus!
