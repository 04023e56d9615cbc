//! Route entries and the category list derived from them.

use vstd::prelude::*;

verus! {

/// One selectable autonomous route: the category it is listed under, the
/// name shown for it, and the callback that runs it.
///
/// Categories are ordering keys: the picker lists them in ascending order.
pub struct Route<F> {
    pub category: u32,
    pub name: &'static str,
    pub callback: F,
}

impl<F> Route<F> {
    pub fn new(category: u32, name: &'static str, callback: F) -> (r: Self)
        ensures
            r.category == category,
            r.name@ == name@,
            r.callback == callback,
    {
        Route { category, name, callback }
    }
}

impl<F: Clone> Clone for Route<F> {
    fn clone(&self) -> (r: Self)
        ensures
            r.category == self.category,
            r.name == self.name,
            cloned::<F>(self.callback, r.callback),
    {
        Route { category: self.category, name: self.name, callback: self.callback.clone() }
    }
}

/// Categories of the routes, in table order.
pub open spec fn route_categories<F>(routes: Seq<Route<F>>) -> Seq<u32> {
    routes.map_values(|r: Route<F>| r.category)
}

pub open spec fn strictly_increasing(s: Seq<u32>) -> bool {
    forall|i: int, j: int| 0 <= i < j < s.len() ==> s[i] < s[j]
}

/// The distinct categories of `routes`, in ascending order.
pub fn sorted_categories<F>(routes: &Vec<Route<F>>) -> (r: Vec<u32>)
    ensures
        strictly_increasing(r@),
        forall|c: u32| r@.contains(c) <==> route_categories(routes@).contains(c),
{
    let ghost cats = route_categories(routes@);
    let n = routes.len();
    let mut out: Vec<u32> = Vec::new();
    // Every category below `floor` is placed; none at or above it is.
    let mut floor: u64 = 0;
    loop
        invariant
            n == routes@.len(),
            cats == route_categories(routes@),
            floor <= 0x1_0000_0000,
            strictly_increasing(out@),
            forall|i: int| 0 <= i < out@.len() ==> (out@[i] as u64) < floor,
            forall|c: u32| out@.contains(c) <==> (cats.contains(c) && (c as u64) < floor),
        decreases 0x1_0000_0000 - floor,
    {
        // The least category at or above `floor`.
        let mut best: Option<u32> = None;
        let mut i: usize = 0;
        while i < n
            invariant
                n == routes@.len(),
                cats == route_categories(routes@),
                i <= n,
                best matches Some(b) ==> (b as u64) >= floor && cats.take(i as int).contains(b),
                forall|k: int|
                    0 <= k < i && (cats[k] as u64) >= floor ==> (best matches Some(b) && b
                        <= cats[k]),
            decreases n - i,
        {
            let c = routes[i].category;
            assert(c == cats[i as int]);
            let better = match best {
                None => c as u64 >= floor,
                Some(b) => c as u64 >= floor && c < b,
            };
            if better {
                best = Some(c);
            }
            proof {
                assert(cats.take(i + 1) =~= cats.take(i as int).push(c));
                if let Some(b) = best {
                    if b != c {
                        assert(cats.take(i as int).contains(b));
                        let w = choose|w: int| 0 <= w < i && cats.take(i as int)[w] == b;
                        assert(cats.take(i + 1)[w] == b);
                    } else {
                        assert(cats.take(i + 1)[i as int] == c);
                    }
                }
            }
            i = i + 1;
        }
        match best {
            None => {
                proof {
                    assert(cats.take(n as int) =~= cats);
                    assert forall|c: u32| out@.contains(c) <==> cats.contains(c) by {
                        if cats.contains(c) {
                            let k = choose|k: int| 0 <= k < cats.len() && cats[k] == c;
                            assert((c as u64) < floor);
                        }
                    }
                }
                return out;
            },
            Some(b) => {
                let ghost before = out@;
                out.push(b);
                floor = b as u64 + 1;
                proof {
                    assert(cats.take(n as int) =~= cats);
                    assert forall|c: u32| out@.contains(c) <==> (cats.contains(c) && (c as u64) < floor) by {
                        if out@.contains(c) && c != b {
                            let k = choose|k: int| 0 <= k < out@.len() && out@[k] == c;
                            assert(before[k] == c);
                        }
                        if cats.contains(c) && (c as u64) < floor && c != b {
                            assert(before.contains(c));
                            let m = choose|m: int| 0 <= m < before.len() && before[m] == c;
                            assert(out@[m] == c);
                        }
                        if c == b {
                            assert(out@[out@.len() - 1] == b);
                        }
                    }
                }
            },
        }
    }
}

} // verus!
