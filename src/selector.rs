//! The selection state machine: pick a category, then a route in it, then
//! confirm the route.
//!
//! Each stage but the last shows one picker. The caller runs that picker and
//! hands its outcome to `advance`, which moves to the next stage and, on a
//! confirmation, commits the route as the selection.

use vstd::prelude::*;
use vstd::string::StrSliceExecFns;
use crate::route::{Route, route_categories, sorted_categories, strictly_increasing};
use crate::text::{push_text, string_from_chars};

verus! {

/// Where the selection flow stands. Routes are named by their index in the
/// route table.
#[derive(Clone, Copy, Debug, PartialEq, Eq)]
pub enum Stage {
    /// Picking a category.
    Category,
    /// Picking a route of the given category.
    Route(u32),
    /// Asking to confirm the route.
    Confirm(usize),
    /// The route is committed; its confirmation screen stays up.
    Done(usize),
}

/// Indices of the routes of category `cat`, in table order.
pub open spec fn routes_in(cats: Seq<u32>, cat: u32) -> Seq<int>
    decreases cats.len(),
{
    if cats.len() == 0 {
        Seq::empty()
    } else if cats.last() == cat {
        routes_in(cats.drop_last(), cat).push(cats.len() - 1)
    } else {
        routes_in(cats.drop_last(), cat)
    }
}

/// Index of the first route at or after `i` with category `cat` and name
/// `name`.
pub open spec fn first_match(cats: Seq<u32>, names: Seq<Seq<char>>, cat: u32, name: Seq<char>, i: int) -> int
    decreases cats.len() - i,
{
    if i >= cats.len() || i < 0 {
        i
    } else if cats[i] == cat && names[i] == name {
        i
    } else {
        first_match(cats, names, cat, name, i + 1)
    }
}

/// Number of options the picker of `stage` offers.
pub open spec fn option_count(stage: Stage, categories: Seq<u32>, cats: Seq<u32>) -> int {
    match stage {
        Stage::Category => categories.len() as int,
        Stage::Route(c) => routes_in(cats, c).len() as int,
        Stage::Confirm(_) => 2,
        Stage::Done(_) => 0,
    }
}

/// The stage that follows `stage` once its picker returned `outcome`
/// (`None` for a cancelled pick).
pub open spec fn next_stage(stage: Stage, outcome: Option<usize>, categories: Seq<u32>, cats: Seq<u32>) -> Stage {
    match stage {
        Stage::Category => match outcome {
            Some(i) => Stage::Route(categories[i as int]),
            None => Stage::Category,
        },
        Stage::Route(c) => match outcome {
            Some(i) => Stage::Confirm(routes_in(cats, c)[i as int] as usize),
            None => Stage::Category,
        },
        Stage::Confirm(r) => match outcome {
            Some(i) if i != 0 => Stage::Done(r),
            _ => Stage::Route(cats[r as int]),
        },
        Stage::Done(r) => Stage::Done(r),
    }
}

/// Backing out of a confirmation returns to the routes of the confirmed
/// route's category, and backing out of those returns to the categories; a
/// category pick opens that category, a route pick asks to confirm that route,
/// and confirming it ends the flow on it.
pub proof fn lemma_navigation(categories: Seq<u32>, cats: Seq<u32>, c: u32, r: usize, i: usize)
    requires
        r < cats.len(),
        i < categories.len(),
        i < routes_in(cats, c).len(),
    ensures
        next_stage(Stage::Confirm(r), None, categories, cats) == Stage::Route(cats[r as int]),
        next_stage(Stage::Confirm(r), Some(0), categories, cats) == Stage::Route(cats[r as int]),
        next_stage(Stage::Confirm(r), Some(1), categories, cats) == Stage::Done(r),
        next_stage(Stage::Route(c), None, categories, cats) == Stage::Category,
        next_stage(Stage::Category, None, categories, cats) == Stage::Category,
        next_stage(Stage::Category, Some(i), categories, cats) == Stage::Route(categories[i as int]),
        next_stage(Stage::Route(c), Some(i), categories, cats) == Stage::Confirm(
            routes_in(cats, c)[i as int] as usize,
        ),
        cats[routes_in(cats, c)[i as int]] == c,
{
    lemma_routes_in(cats, c);
}

/// The routes offered for category `cat` are exactly the routes of that
/// category, each once, in table order.
pub proof fn lemma_routes_in(cats: Seq<u32>, cat: u32)
    ensures
        forall|k: int| 0 <= k < routes_in(cats, cat).len() ==> {
            let r = #[trigger] routes_in(cats, cat)[k];
            0 <= r < cats.len() && cats[r] == cat
        },
        forall|a: int, b: int|
            0 <= a < b < routes_in(cats, cat).len() ==> routes_in(cats, cat)[a] < routes_in(cats, cat)[b],
        forall|r: int| 0 <= r < cats.len() && cats[r] == cat ==> routes_in(cats, cat).contains(r),
    decreases cats.len(),
{
    if cats.len() > 0 {
        let d = cats.drop_last();
        lemma_routes_in(d, cat);
        assert forall|r: int| 0 <= r < cats.len() && cats[r] == cat implies routes_in(cats, cat).contains(r) by {
            if r < cats.len() - 1 {
                assert(d[r] == cat);
                let k = choose|k: int| 0 <= k < routes_in(d, cat).len() && routes_in(d, cat)[k] == r;
                assert(routes_in(cats, cat)[k] == r);
            } else {
                assert(routes_in(cats, cat).last() == r);
            }
        }
    }
}

/// Confirming route `r` commits the first route of the table with the
/// category and name of `r`: it is `r` itself unless an earlier route shares
/// both.
pub proof fn lemma_first_match(cats: Seq<u32>, names: Seq<Seq<char>>, r: int, i: int)
    requires
        0 <= i <= r < cats.len(),
        names.len() == cats.len(),
    ensures
        i <= first_match(cats, names, cats[r], names[r], i) <= r,
        ({
            let m = first_match(cats, names, cats[r], names[r], i);
            cats[m] == cats[r] && names[m] == names[r]
        }),
        forall|k: int|
            i <= k < first_match(cats, names, cats[r], names[r], i) ==> !(cats[k] == cats[r] && names[k] == names[r]),
    decreases r - i,
{
    if !(cats[i] == cats[r] && names[i] == names[r]) {
        lemma_first_match(cats, names, r, i + 1);
    }
}

/// The route selector: the route table, its categories, the committed
/// selection and the stage of the interactive flow.
pub struct ControllerSelect<F> {
    routes: Vec<Route<F>>,
    categories: Vec<u32>,
    selection: Option<usize>,
    stage: Stage,
    stopped: bool,
}

impl<F> ControllerSelect<F> {
    pub closed spec fn routes_spec(&self) -> Seq<Route<F>> {
        self.routes@
    }

    /// Categories of the routes, in table order.
    pub open spec fn cats(&self) -> Seq<u32> {
        route_categories(self.routes_spec())
    }

    /// Names of the routes, in table order.
    pub open spec fn names(&self) -> Seq<Seq<char>> {
        self.routes_spec().map_values(|r: Route<F>| r.name@)
    }

    pub closed spec fn categories_spec(&self) -> Seq<u32> {
        self.categories@
    }

    pub closed spec fn selection_spec(&self) -> Option<usize> {
        self.selection
    }

    pub closed spec fn stage_spec(&self) -> Stage {
        self.stage
    }

    pub closed spec fn stopped_spec(&self) -> bool {
        self.stopped
    }

    pub open spec fn stage_ok(&self) -> bool {
        match self.stage_spec() {
            Stage::Category => true,
            Stage::Route(c) => self.cats().contains(c),
            Stage::Confirm(r) => r < self.routes_spec().len(),
            Stage::Done(r) => r < self.routes_spec().len(),
        }
    }

    pub open spec fn wf(&self) -> bool {
        &&& self.routes_spec().len() >= 1
        &&& strictly_increasing(self.categories_spec())
        &&& forall|c: u32| self.categories_spec().contains(c) <==> self.cats().contains(c)
        &&& self.selection_spec() matches Some(i) ==> i < self.routes_spec().len()
        &&& self.stage_ok()
    }

    /// A selector over `routes`, asking for a category first, with nothing
    /// selected.
    pub fn new(routes: Vec<Route<F>>) -> (r: Self)
        requires
            routes@.len() >= 1,
        ensures
            r.wf(),
            r.routes_spec() == routes@,
            r.selection_spec() is None,
            r.stage_spec() == Stage::Category,
            !r.stopped_spec(),
    {
        let categories = sorted_categories(&routes);
        ControllerSelect { routes, categories, selection: None, stage: Stage::Category, stopped: false }
    }

    /// Selects the route at `index` of the table directly, outside the
    /// interactive flow.
    pub fn select(&mut self, index: usize)
        requires
            old(self).wf(),
            index < old(self).routes_spec().len(),
        ensures
            final(self).wf(),
            final(self).selection_spec() == Some(index),
            final(self).routes_spec() == old(self).routes_spec(),
            final(self).categories_spec() == old(self).categories_spec(),
            final(self).stage_spec() == old(self).stage_spec(),
            final(self).stopped_spec() == old(self).stopped_spec(),
    {
        self.selection = Some(index);
    }

    /// The committed selection, if any.
    pub fn selection(&self) -> (r: Option<usize>)
        ensures
            r == self.selection_spec(),
    {
        self.selection
    }

    /// Number of routes in the table.
    pub fn route_count(&self) -> (r: usize)
        ensures
            r == self.routes_spec().len(),
    {
        self.routes.len()
    }

    /// The route at `index` of the table.
    pub fn route(&self, index: usize) -> (r: &Route<F>)
        requires
            index < self.routes_spec().len(),
        ensures
            *r == self.routes_spec()[index as int],
    {
        &self.routes[index]
    }

    /// The committed route, if any.
    pub fn selected_route(&self) -> (r: Option<&Route<F>>)
        requires
            self.wf(),
        ensures
            r matches Some(x) ==> self.selection_spec() matches Some(i) && *x == self.routes_spec()[i as int],
            r is None <==> self.selection_spec() is None,
    {
        match self.selection {
            Some(i) => Some(&self.routes[i]),
            None => None,
        }
    }

    /// The distinct categories, in ascending order.
    pub fn categories(&self) -> (r: &Vec<u32>)
        ensures
            r@ == self.categories_spec(),
    {
        &self.categories
    }

    pub fn stage(&self) -> (r: Stage)
        ensures
            r == self.stage_spec(),
    {
        self.stage
    }

    /// Whether the selector has stopped for good.
    pub fn is_stopped(&self) -> (r: bool)
        ensures
            r == self.stopped_spec(),
    {
        self.stopped
    }

    /// Samples the liveness condition before a stage is evaluated. Once it
    /// has failed the selector stays stopped for good.
    pub fn check_live(&mut self, live: bool) -> (r: bool)
        requires
            old(self).wf(),
        ensures
            final(self).wf(),
            final(self).stopped_spec() == (old(self).stopped_spec() || !live),
            r == !final(self).stopped_spec(),
            final(self).selection_spec() == old(self).selection_spec(),
            final(self).stage_spec() == old(self).stage_spec(),
            final(self).routes_spec() == old(self).routes_spec(),
            final(self).categories_spec() == old(self).categories_spec(),
    {
        if !live {
            self.stopped = true;
        }
        !self.stopped
    }

    /// Indices of the routes of category `cat`, in table order: the options
    /// of the route picker.
    pub fn routes_of(&self, cat: u32) -> (r: Vec<usize>)
        ensures
            r@.len() == routes_in(self.cats(), cat).len(),
            forall|k: int| 0 <= k < r@.len() ==> r@[k] as int == routes_in(self.cats(), cat)[k],
    {
        let ghost cats = self.cats();
        let n = self.routes.len();
        let mut out: Vec<usize> = Vec::new();
        let mut i: usize = 0;
        while i < n
            invariant
                n == self.routes_spec().len(),
                cats == self.cats(),
                i <= n,
                out@.len() == routes_in(cats.take(i as int), cat).len(),
                forall|k: int| 0 <= k < out@.len() ==> out@[k] as int == routes_in(cats.take(i as int), cat)[k],
            decreases n - i,
        {
            assert(cats.take(i + 1).drop_last() =~= cats.take(i as int));
            if self.routes[i].category == cat {
                out.push(i);
            }
            i = i + 1;
        }
        assert(cats.take(n as int) =~= cats);
        out
    }

    /// Number of options the current stage's picker offers.
    pub fn option_count(&self) -> (r: usize)
        requires
            self.wf(),
        ensures
            r == option_count(self.stage_spec(), self.categories_spec(), self.cats()),
    {
        match self.stage {
            Stage::Category => self.categories.len(),
            Stage::Route(c) => self.routes_of(c).len(),
            Stage::Confirm(_) => 2,
            Stage::Done(_) => 0,
        }
    }

    /// The label that confirms route `index`: `"Confirm "` and its name.
    pub fn confirm_label(&self, index: usize) -> (r: String)
        requires
            index < self.routes_spec().len(),
        ensures
            r@ == "Confirm "@ + self.routes_spec()[index as int].name@,
    {
        let mut v: Vec<char> = Vec::new();
        push_text(&mut v, "Confirm ");
        push_text(&mut v, self.routes[index].name);
        string_from_chars(&v)
    }

    /// Index of the first route with the category and name of route `r`.
    fn position_of(&self, r: usize) -> (p: usize)
        requires
            r < self.routes_spec().len(),
        ensures
            p == first_match(self.cats(), self.names(), self.cats()[r as int], self.names()[r as int], 0),
    {
        let ghost cats = self.cats();
        let ghost names = self.names();
        proof {
            lemma_first_match(cats, names, r as int, 0);
        }
        let mut i: usize = 0;
        while i < r
            invariant
                r < cats.len() == names.len() == self.routes_spec().len(),
                cats == self.cats(),
                names == self.names(),
                i <= r,
                first_match(cats, names, cats[r as int], names[r as int], 0)
                    == first_match(cats, names, cats[r as int], names[r as int], i as int),
            decreases r - i,
        {
            if self.routes[i].category == self.routes[r].category
                && same_text(self.routes[i].name, self.routes[r].name) {
                return i;
            }
            i = i + 1;
        }
        r
    }

    /// Moves on from the current stage once its picker returned `outcome`
    /// (`None` for a cancelled pick). Confirming a route commits the first
    /// route of the table with its category and name.
    pub fn advance(&mut self, outcome: Option<usize>)
        requires
            old(self).wf(),
            !old(self).stopped_spec(),
            !(old(self).stage_spec() is Done),
            outcome matches Some(i) ==> i < option_count(old(self).stage_spec(), old(self).categories_spec(), old(self).cats()),
        ensures
            final(self).wf(),
            final(self).stage_spec() == next_stage(old(self).stage_spec(), outcome, old(self).categories_spec(), old(self).cats()),
            final(self).selection_spec() == (match (old(self).stage_spec(), outcome) {
                (Stage::Confirm(r), Some(i)) if i != 0 => Some(first_match(
                    old(self).cats(),
                    old(self).names(),
                    old(self).cats()[r as int],
                    old(self).names()[r as int],
                    0,
                ) as usize),
                _ => old(self).selection_spec(),
            }),
            final(self).routes_spec() == old(self).routes_spec(),
            final(self).categories_spec() == old(self).categories_spec(),
            final(self).stopped_spec() == old(self).stopped_spec(),
    {
        proof {
            lemma_routes_in(self.cats(), match self.stage { Stage::Route(c) => c, _ => 0 });
        }
        match self.stage {
            Stage::Category => match outcome {
                Some(i) => {
                    let c = self.categories[i];
                    assert(self.categories_spec().contains(c));
                    self.stage = Stage::Route(c);
                },
                None => {},
            },
            Stage::Route(c) => match outcome {
                Some(i) => {
                    let indices = self.routes_of(c);
                    self.stage = Stage::Confirm(indices[i]);
                },
                None => {
                    self.stage = Stage::Category;
                },
            },
            Stage::Confirm(r) => {
                let confirmed = match outcome {
                    Some(i) => i != 0,
                    None => false,
                };
                if confirmed {
                    proof {
                        lemma_first_match(self.cats(), self.names(), r as int, 0);
                    }
                    self.selection = Some(self.position_of(r));
                    self.stage = Stage::Done(r);
                } else {
                    let c = self.routes[r].category;
                    assert(self.cats()[r as int] == c);
                    self.stage = Stage::Route(c);
                }
            },
            Stage::Done(_) => {},
        }
    }
}

/// Whether two texts are the same.
pub fn same_text(a: &str, b: &str) -> (r: bool)
    ensures
        r == (a@ == b@),
{
    let n = a.unicode_len();
    if n != b.unicode_len() {
        return false;
    }
    let mut i: usize = 0;
    while i < n
        invariant
            n == a@.len() == b@.len(),
            i <= n,
            a@.take(i as int) == b@.take(i as int),
        decreases n - i,
    {
        if a.get_char(i) != b.get_char(i) {
            return false;
        }
        assert(a@.take(i + 1) =~= a@.take(i as int).push(a@[i as int]));
        assert(b@.take(i + 1) =~= b@.take(i as int).push(b@[i as int]));
        i = i + 1;
    }
    assert(a@ =~= a@.take(n as int));
    assert(b@ =~= b@.take(n as int));
    true
}

} // verus!
