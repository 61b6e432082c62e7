//! The list of exit countries the panel offers: the countries of the
//! running exit relays, and how long a fetched list is served again.

use vstd::prelude::*;
use crate::text::opt_view;

verus! {

/// How long a fetched list is served again, in nanoseconds: one hour.
pub const COUNTRIES_CACHE_NANOS: u128 = 3_600_000_000_000u128;

/// Whether a list fetched `age_nanos` ago is still served.
pub fn cache_fresh(age_nanos: u128) -> (r: bool)
    ensures
        r == (age_nanos < COUNTRIES_CACHE_NANOS),
{
    age_nanos < COUNTRIES_CACHE_NANOS
}

/// The countries of the relays that name one, in order.
pub open spec fn located(countries: Seq<Option<Seq<char>>>) -> Seq<Seq<char>>
    decreases countries.len(),
{
    if countries.len() == 0 {
        Seq::empty()
    } else {
        let rest = located(countries.drop_last());
        match countries.last() {
            Some(c) => rest.push(c),
            None => rest,
        }
    }
}

/// The texts of a list of strings.
pub open spec fn texts(v: Seq<String>) -> Seq<Seq<char>> {
    v.map_values(|s: String| s@)
}

/// The optional texts of a list of optional strings.
pub open spec fn opt_texts(v: Seq<Option<String>>) -> Seq<Option<Seq<char>>> {
    v.map_values(|o: Option<String>| opt_view(o))
}

/// The relays' countries, leaving out the relays that name none.
pub fn located_countries(countries: Vec<Option<String>>) -> (r: Vec<String>)
    ensures
        texts(r@) == located(opt_texts(countries@)),
{
    let ghost all = opt_texts(countries@);
    let mut out: Vec<String> = Vec::new();
    let mut i: usize = 0;
    while i < countries.len()
        invariant
            i <= countries.len(),
            all == opt_texts(countries@),
            texts(out@) == located(all.subrange(0, i as int)),
        decreases countries.len() - i,
    {
        proof {
            assert(all.subrange(0, i + 1).drop_last() =~= all.subrange(0, i as int));
            assert(all.subrange(0, i + 1).last() == opt_view(countries@[i as int]));
        }
        match &countries[i] {
            Some(c) => {
                let ghost before = out@;
                out.push(c.clone());
                proof {
                    assert(texts(out@) =~= texts(before).push(c@));
                }
            },
            None => {},
        }
        i = i + 1;
    }
    proof {
        assert(all.subrange(0, countries.len() as int) =~= all);
    }
    out
}

} // verus!
