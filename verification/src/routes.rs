//! The route table: registrations keyed by path segment and method, where
//! the last registration for a pair wins.

use vstd::prelude::*;
use crate::method::Method;

verus! {

/// A route table generic over the handler representation `H`.
///
/// Its abstract value is the sequence of registrations in order; the
/// effective table is [`routes_as_map`] of that sequence, under which the
/// last registration for a `(segment, method)` pair wins.
pub struct Routes<H> {
    entries: Vec<(String, Method, H)>,
}

/// The registrations a sequence of stored entries stands for.
pub open spec fn spec_entry_views<H>(es: Seq<(String, Method, H)>) -> Seq<
    (Seq<char>, Method, H),
> {
    es.map(|i: int, e: (String, Method, H)| (e.0@, e.1, e.2))
}

/// The effective table of a registration sequence: for each
/// `(segment, method)` pair, the handler of its last registration.
pub open spec fn routes_as_map<H>(table: Seq<(Seq<char>, Method, H)>) -> Map<
    (Seq<char>, Method),
    H,
>
    decreases table.len(),
{
    if table.len() == 0 {
        Map::empty()
    } else {
        routes_as_map(table.drop_last()).insert(
            (table.last().0, table.last().1),
            table.last().2,
        )
    }
}

/// Resolution over the model: the handler registered last under
/// `(segment, method)`, if any.
pub open spec fn spec_resolve<H>(
    table: Seq<(Seq<char>, Method, H)>,
    segment: Seq<char>,
    method: Method,
) -> Option<H> {
    if routes_as_map(table).contains_key((segment, method)) {
        Some(routes_as_map(table)[(segment, method)])
    } else {
        None
    }
}

impl<H> View for Routes<H> {
    type V = Seq<(Seq<char>, Method, H)>;

    closed spec fn view(&self) -> Seq<(Seq<char>, Method, H)> {
        spec_entry_views(self.entries@)
    }
}

proof fn lemma_as_map_found<H>(table: Seq<(Seq<char>, Method, H)>, i: int)
    requires
        0 <= i < table.len(),
        forall|j: int|
            i < j < table.len() ==> !(#[trigger] table[j].0 == table[i].0 && table[j].1
                == table[i].1),
    ensures
        routes_as_map(table).contains_key((table[i].0, table[i].1)),
        routes_as_map(table)[(table[i].0, table[i].1)] == table[i].2,
    decreases table.len(),
{
    if i == table.len() - 1 {
    } else {
        lemma_as_map_found(table.drop_last(), i);
    }
}

proof fn lemma_as_map_absent<H>(
    table: Seq<(Seq<char>, Method, H)>,
    segment: Seq<char>,
    method: Method,
)
    requires
        forall|j: int|
            0 <= j < table.len() ==> !(#[trigger] table[j].0 == segment && table[j].1 == method),
    ensures
        !routes_as_map(table).contains_key((segment, method)),
    decreases table.len(),
{
    if table.len() > 0 {
        lemma_as_map_absent(table.drop_last(), segment, method);
    }
}

impl<H> Routes<H> {
    /// An empty route table.
    pub fn new() -> (r: Self)
        ensures
            r@ == Seq::<(Seq<char>, Method, H)>::empty(),
    {
        let r = Routes { entries: Vec::new() };
        proof {
            assert(r@ =~= Seq::<(Seq<char>, Method, H)>::empty());
        }
        r
    }

    /// Register `handler` under `(segment, method)`; a later registration
    /// for the same pair overrides an earlier one.
    pub fn insert(&mut self, segment: String, method: Method, handler: H)
        ensures
            final(self)@ == old(self)@.push((segment@, method, handler)),
    {
        let ghost old_entries = self.entries@;
        self.entries.push((segment, method, handler));
        proof {
            assert(self@ =~= spec_entry_views(old_entries).push((segment@, method, handler)));
        }
    }

    /// The handler registered last under `(segment, method)`, if any.
    pub fn resolve(&self, segment: &String, method: Method) -> (r: Option<&H>)
        ensures
            match r {
                Some(h) => spec_resolve(self@, segment@, method) == Some(*h),
                None => spec_resolve(self@, segment@, method) is None,
            },
    {
        let ghost table = self@;
        let n = self.entries.len();
        proof {
            assert(table.len() == n);
        }
        let mut i = n;
        while i > 0
            invariant
                i <= n,
                n == self.entries.len(),
                table == self@,
                forall|j: int|
                    i <= j < n ==> !(#[trigger] table[j].0 == segment@ && table[j].1 == method),
            decreases i,
        {
            proof {
                assert(table[i - 1].0 == self.entries@[i - 1].0@);
            }
            let hit = self.entries[i - 1].0 == *segment && self.entries[i - 1].1 == method;
            if hit {
                proof {
                    lemma_as_map_found(table, i - 1);
                }
                return Some(&self.entries[i - 1].2);
            }
            i = i - 1;
        }
        proof {
            lemma_as_map_absent(table, segment@, method);
        }
        None
    }

    /// Append every registration of `other`, in order, after this table's
    /// own; registrations of `other` thereby override this table's for the
    /// pairs both hold.
    pub fn merge(&mut self, other: Routes<H>)
        ensures
            final(self)@ == old(self)@ + other@,
    {
        let ghost other_view = other@;
        let mut rest = other.entries;
        let ghost k: int = 0;
        proof {
            assert(spec_entry_views(rest@) =~= other_view.skip(0));
        }
        while rest.len() > 0
            invariant
                0 <= k <= other_view.len(),
                spec_entry_views(rest@) == other_view.skip(k),
                self@ == old(self)@ + other_view.take(k),
            decreases rest.len(),
        {
            let ghost prev_rest = rest@;
            let e = rest.remove(0);
            proof {
                assert(spec_entry_views(prev_rest)[0] == (prev_rest[0].0@, prev_rest[0].1,
                prev_rest[0].2));
                assert(spec_entry_views(prev_rest).len() == prev_rest.len());
                assert(k < other_view.len());
                assert((e.0@, e.1, e.2) == other_view.skip(k)[0]);
                assert(other_view.skip(k)[0] == other_view[k]);
                assert(rest@ =~= prev_rest.drop_first());
                assert(spec_entry_views(rest@) =~= other_view.skip(k).drop_first());
                assert(other_view.skip(k).drop_first() =~= other_view.skip(k + 1));
            }
            let ghost prev = self@;
            self.entries.push(e);
            proof {
                assert(self@ =~= prev.push(other_view[k]));
                assert(prev.push(other_view[k]) =~= old(self)@ + other_view.take(k + 1));
            }
            proof {
                k = k + 1;
            }
        }
        proof {
            assert(other_view.take(k) =~= other_view);
        }
    }

    /// How many registrations the table holds.
    pub fn len(&self) -> (n: usize)
        ensures
            n == self@.len(),
    {
        self.entries.len()
    }

    /// The stored registrations in order, consuming the table.
    pub fn into_entries(self) -> (r: Vec<(String, Method, H)>)
        ensures
            spec_entry_views(r@) == self@,
    {
        self.entries
    }
}

/// Pushing one registration updates the effective table at exactly its
/// pair.
pub proof fn lemma_as_map_push<H>(table: Seq<(Seq<char>, Method, H)>, e: (Seq<char>, Method, H))
    ensures
        routes_as_map(table.push(e)) == routes_as_map(table).insert((e.0, e.1), e.2),
{
    assert(table.push(e).drop_last() =~= table);
}

/// Dispatch finds exactly the registered handler: whenever the effective
/// table holds `h` under `(segment, method)`, resolution yields `h` and
/// nothing else.
pub proof fn lemma_dispatch_registered<H>(
    table: Seq<(Seq<char>, Method, H)>,
    segment: Seq<char>,
    method: Method,
    h: H,
)
    requires
        routes_as_map(table).contains_key((segment, method)),
        routes_as_map(table)[(segment, method)] == h,
    ensures
        spec_resolve(table, segment, method) == Some(h),
{
}

/// A pair nobody registered resolves to nothing: requests whose first
/// path segment has no route, or whose method is not registered under an
/// existing segment, are turned away.
pub proof fn lemma_unregistered_resolves_to_nothing<H>(
    table: Seq<(Seq<char>, Method, H)>,
    segment: Seq<char>,
    method: Method,
)
    requires
        !routes_as_map(table).contains_key((segment, method)),
    ensures
        spec_resolve(table, segment, method) is None,
{
}

/// Registering two handlers under the same `(segment, method)` pair
/// leaves only the second dispatchable.
pub proof fn lemma_last_registration_wins<H>(
    table: Seq<(Seq<char>, Method, H)>,
    segment: Seq<char>,
    method: Method,
    h1: H,
    h2: H,
)
    ensures
        spec_resolve(
            table.push((segment, method, h1)).push((segment, method, h2)),
            segment,
            method,
        ) == Some(h2),
{
    lemma_as_map_push(table, (segment, method, h1));
    lemma_as_map_push(table.push((segment, method, h1)), (segment, method, h2));
}

} // verus!

verus! {

/// Composing two registration sequences composes their effective tables,
/// with the later sequence's registrations silently overriding the
/// earlier's wherever both hold a `(segment, method)` pair.
pub proof fn lemma_as_map_concat<H>(a: Seq<(Seq<char>, Method, H)>, b: Seq<(Seq<char>, Method, H)>)
    ensures
        forall|p: (Seq<char>, Method)|
            #[trigger] routes_as_map(a + b).contains_key(p) <==> (routes_as_map(a).contains_key(p)
                || routes_as_map(b).contains_key(p)),
        forall|p: (Seq<char>, Method)|
            routes_as_map(b).contains_key(p) ==> routes_as_map(a + b)[p] == routes_as_map(b)[p],
        forall|p: (Seq<char>, Method)|
            !routes_as_map(b).contains_key(p) && routes_as_map(a).contains_key(p)
                ==> routes_as_map(a + b)[p] == routes_as_map(a)[p],
    decreases b.len(),
{
    if b.len() == 0 {
        assert(a + b =~= a);
    } else {
        let bd = b.drop_last();
        let e = b.last();
        let key = (e.0, e.1);
        lemma_as_map_concat(a, bd);
        assert((a + b).drop_last() =~= a + bd);
        assert((a + b).last() == e);
        assert(routes_as_map(a + b) == routes_as_map(a + bd).insert(key, e.2));
        assert forall|p: (Seq<char>, Method)|
            routes_as_map(b).contains_key(p) implies routes_as_map(a + b)[p] == routes_as_map(
            b,
        )[p] by {
            if p != key {
                assert(routes_as_map(bd).contains_key(p));
            }
        }
        assert forall|p: (Seq<char>, Method)|
            !routes_as_map(b).contains_key(p) && routes_as_map(a).contains_key(
                p,
            ) implies routes_as_map(a + b)[p] == routes_as_map(a)[p] by {
            assert(p != key);
            assert(!routes_as_map(bd).contains_key(p));
        }
    }
}

} // verus!
