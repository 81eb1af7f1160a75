//! Discovery: the one scan of the device directory at startup.
//!
//! The caller lists the directory once and hands the whole listing over. The
//! plan names the entries that are opened; every other entry is left alone.
//! An item that could not be read is passed over and reported, and the scan
//! goes on behind it. The caller opens the planned entries one by one and
//! hands each result to `after_open` with the origin `Discovery`, where a
//! failed open is passed over and never ends the scan.

use crate::attach::{
    consider_entry, open_decision, should_attach, OpenDecision, OpenFailurePolicy, OpenOrigin,
};
use crate::filter::is_keyboard_name;
use crate::registry::ReaderRegistry;
use vstd::prelude::*;

verus! {

/// One item of a directory listing.
#[derive(Clone, Debug, PartialEq, Eq)]
pub enum ListingItem {
    /// An entry, by the bytes of its name or of its path.
    Entry(Vec<u8>),
    /// An item that could not be read.
    Unreadable,
}

/// What discovery does with a listing.
#[derive(Clone, Debug, PartialEq, Eq)]
pub struct DiscoveryPlan {
    /// The positions in the listing of the entries to open, in rising order.
    pub open: Vec<usize>,
    /// The positions of the items that could not be read, in rising order.
    pub unreadable: Vec<usize>,
}

impl ListingItem {
    /// The bytes of an entry.
    pub open spec fn path(self) -> Option<Seq<u8>> {
        match self {
            ListingItem::Entry(path) => Some(path@),
            ListingItem::Unreadable => None,
        }
    }

    /// Whether the item is an entry that denotes a keyboard.
    pub open spec fn is_keyboard(self) -> bool {
        match self {
            ListingItem::Entry(path) => is_keyboard_name(path@),
            ListingItem::Unreadable => false,
        }
    }
}

/// The positions rise strictly and stay below `n`.
pub open spec fn rising_below(positions: Seq<usize>, n: int) -> bool {
    &&& forall|a: int, b: int| 0 <= a < b < positions.len() ==> positions[a] < positions[b]
    &&& forall|k: int| 0 <= k < positions.len() ==> positions[k] < n
}

/// Position `i` is one of `positions`.
pub open spec fn planned(positions: Seq<usize>, i: int) -> bool {
    exists|k: int| 0 <= k < positions.len() && positions[k] == i
}

/// The items of the listing at the given positions, in their order.
pub open spec fn items_at(listing: Seq<ListingItem>, positions: Seq<usize>) -> Seq<ListingItem> {
    positions.map_values(|at: usize| listing[at as int])
}

/// The entry at position `i` is opened: it is a keyboard that no reader
/// holds and that the listing does not name at an earlier position.
pub open spec fn attaches_at(listing: Seq<ListingItem>, active: Set<Seq<u8>>, i: int) -> bool {
    match listing[i].path() {
        Some(path) => should_attach(active, path) && forall|j: int|
            0 <= j < i ==> (#[trigger] listing[j]).path() != Some(path),
        None => false,
    }
}

/// `open` and `unreadable` are what discovery does with `listing` while the
/// paths in `active` have a reader: the whole listing is scanned, the entries
/// to open are named in the order of the listing, and so are the items that
/// could not be read.
pub open spec fn is_plan(
    listing: Seq<ListingItem>,
    active: Set<Seq<u8>>,
    open: Seq<usize>,
    unreadable: Seq<usize>,
) -> bool {
    &&& rising_below(open, listing.len() as int)
    &&& rising_below(unreadable, listing.len() as int)
    &&& forall|i: int|
        0 <= i < listing.len() ==> (#[trigger] planned(open, i) <==> attaches_at(
            listing,
            active,
            i,
        ))
    &&& forall|i: int|
        0 <= i < listing.len() ==> (#[trigger] planned(unreadable, i) <==> listing[i].path()
            .is_none())
}

/// The claimed paths after the scan: those claimed before, and every
/// keyboard among the entries of the listing.
pub open spec fn discovery_claims(listing: Seq<ListingItem>, active: Set<Seq<u8>>) -> Set<
    Seq<u8>,
> {
    Set::new(
        |path: Seq<u8>|
            active.contains(path) || (is_keyboard_name(path) && exists|i: int|
                0 <= i < listing.len() && (#[trigger] listing[i]).path() == Some(path)),
    )
}

/// The keyboards of a listing, in its order.
pub open spec fn keyboards(listing: Seq<ListingItem>) -> Seq<ListingItem> {
    listing.filter(|item: ListingItem| item.is_keyboard())
}

/// How many entries of a listing denote a keyboard.
pub open spec fn keyboard_count(listing: Seq<ListingItem>) -> nat {
    keyboards(listing).len()
}

/// A listing as a directory gives it: no two entries have the same bytes.
pub open spec fn is_directory_listing(listing: Seq<ListingItem>) -> bool {
    forall|i: int, j: int|
        0 <= i < j < listing.len() && (#[trigger] listing[i]).path().is_some() ==> listing[i].path()
            != (#[trigger] listing[j]).path()
}

/// What discovery decides on the results of its opens, in their order.
pub open spec fn discovery_decisions(
    policy: OpenFailurePolicy,
    opened: Seq<bool>,
) -> Seq<OpenDecision> {
    opened.map_values(|ok: bool| open_decision(OpenOrigin::Discovery, policy, ok))
}

/// How many readers a sequence of decisions starts.
pub open spec fn readers_started(decisions: Seq<OpenDecision>) -> nat {
    decisions.filter(|d: OpenDecision| d == OpenDecision::StartReader).len()
}

/// Adding a position at the end adds that position and no other.
proof fn lemma_planned_push(positions: Seq<usize>, at: usize)
    ensures
        planned(positions.push(at), at as int),
        forall|j: int|
            j != at ==> (#[trigger] planned(positions.push(at), j) <==> planned(positions, j)),
{
    let grown = positions.push(at);
    assert(grown[grown.len() - 1] == at);
    assert forall|j: int| j != at implies (#[trigger] planned(grown, j) <==> planned(
        positions,
        j,
    )) by {
        if planned(positions, j) {
            let k = choose|k: int| 0 <= k < positions.len() && positions[k] == j;
            assert(grown[k] == j);
        }
        if planned(grown, j) {
            let k = choose|k: int| 0 <= k < grown.len() && grown[k] == j;
            assert(positions[k] == j);
        }
    }
}

/// Positions that stay below `n` do not name `n`.
proof fn lemma_not_planned_yet(positions: Seq<usize>, n: int)
    requires
        forall|k: int| 0 <= k < positions.len() ==> positions[k] < n,
    ensures
        !planned(positions, n),
{
    if planned(positions, n) {
        let k = choose|k: int| 0 <= k < positions.len() && positions[k] == n;
        assert(positions[k] < n);
    }
}

/// Scans a listing once, from its first item to its last, and claims the
/// path of every entry that is to be opened. An item that could not be read
/// is noted and the scan goes on with the next.
pub fn plan_discovery(registry: &mut ReaderRegistry, listing: &Vec<ListingItem>) -> (plan:
    DiscoveryPlan)
    ensures
        is_plan(listing@, old(registry)@, plan.open@, plan.unreadable@),
        final(registry)@ == discovery_claims(listing@, old(registry)@),
{
    let mut open: Vec<usize> = Vec::new();
    let mut unreadable: Vec<usize> = Vec::new();
    let mut i: usize = 0;
    assert(registry@ =~= discovery_claims(listing@.take(0), old(registry)@));
    while i < listing.len()
        invariant
            i <= listing.len(),
            rising_below(open@, i as int),
            rising_below(unreadable@, i as int),
            forall|j: int|
                0 <= j < i ==> (#[trigger] planned(open@, j) <==> attaches_at(
                    listing@,
                    old(registry)@,
                    j,
                )),
            forall|j: int|
                0 <= j < i ==> (#[trigger] planned(unreadable@, j) <==> listing@[j].path()
                    .is_none()),
            registry@ == discovery_claims(listing@.take(i as int), old(registry)@),
        decreases listing.len() - i,
    {
        let ghost before = registry@;
        let ghost seen = listing@.take(i as int);
        let ghost grown = listing@.take(i + 1);
        proof {
            lemma_planned_push(open@, i);
            lemma_planned_push(unreadable@, i);
            lemma_not_planned_yet(open@, i as int);
            lemma_not_planned_yet(unreadable@, i as int);
            assert(grown[i as int] == listing@[i as int]);
        }
        match &listing[i] {
            ListingItem::Unreadable => {
                unreadable.push(i);
                proof {
                    assert(!attaches_at(listing@, old(registry)@, i as int));
                    assert(registry@ =~= discovery_claims(grown, old(registry)@)) by {
                        assert forall|q: Seq<u8>| #[trigger]
                            discovery_claims(grown, old(registry)@).contains(
                                q,
                            ) implies before.contains(q) by {
                            if !old(registry)@.contains(q) {
                                let j = choose|j: int|
                                    0 <= j < grown.len() && (#[trigger] grown[j]).path() == Some(
                                        q,
                                    );
                                assert(seen[j].path() == Some(q));
                            }
                        }
                        assert forall|q: Seq<u8>| #[trigger]
                            before.contains(q) implies discovery_claims(
                            grown,
                            old(registry)@,
                        ).contains(q) by {
                            if !old(registry)@.contains(q) {
                                let j = choose|j: int|
                                    0 <= j < seen.len() && (#[trigger] seen[j]).path() == Some(q);
                                assert(grown[j].path() == Some(q));
                            }
                        }
                    }
                }
            },
            ListingItem::Entry(path) => {
                let attempt = consider_entry(registry, path.as_slice());
                proof {
                    let p = path@;
                    assert(listing@[i as int].path() == Some(p));
                    if is_keyboard_name(p) && before.contains(p) && !old(registry)@.contains(p) {
                        let j = choose|j: int|
                            0 <= j < seen.len() && (#[trigger] seen[j]).path() == Some(p);
                        assert(listing@[j].path() == Some(p));
                        assert(!attaches_at(listing@, old(registry)@, i as int));
                    }
                    if attempt {
                        assert forall|j: int| 0 <= j < i implies (#[trigger] listing@[j]).path()
                            != Some(p) by {
                            if listing@[j].path() == Some(p) {
                                assert(seen[j].path() == Some(p));
                                assert(discovery_claims(seen, old(registry)@).contains(p));
                            }
                        }
                    }
                    assert(attempt == attaches_at(listing@, old(registry)@, i as int));
                    assert(registry@ =~= discovery_claims(grown, old(registry)@)) by {
                        assert forall|q: Seq<u8>| #[trigger]
                            discovery_claims(grown, old(registry)@).contains(
                                q,
                            ) implies registry@.contains(q) by {
                            if !old(registry)@.contains(q) {
                                let j = choose|j: int|
                                    0 <= j < grown.len() && (#[trigger] grown[j]).path() == Some(
                                        q,
                                    );
                                if j < i {
                                    assert(seen[j].path() == Some(q));
                                    assert(before.contains(q));
                                }
                            }
                        }
                        assert forall|q: Seq<u8>| #[trigger]
                            registry@.contains(q) implies discovery_claims(
                            grown,
                            old(registry)@,
                        ).contains(q) by {
                            if before.contains(q) {
                                if !old(registry)@.contains(q) {
                                    let j = choose|j: int|
                                        0 <= j < seen.len() && (#[trigger] seen[j]).path() == Some(
                                            q,
                                        );
                                    assert(grown[j].path() == Some(q));
                                }
                            } else {
                                assert(q == p);
                                assert(grown[i as int].path() == Some(q));
                            }
                        }
                    }
                }
                if attempt {
                    open.push(i);
                }
            },
        }
        i += 1;
    }
    assert(listing@.take(i as int) =~= listing@);
    DiscoveryPlan { open, unreadable }
}

/// Rising positions that name exactly the items below `n` that meet
/// `wanted` pick those items, in the order of the listing.
proof fn lemma_rising_positions_select(
    positions: Seq<usize>,
    listing: Seq<ListingItem>,
    n: int,
    wanted: spec_fn(ListingItem) -> bool,
)
    requires
        0 <= n <= listing.len(),
        rising_below(positions, n),
        forall|i: int| 0 <= i < n ==> (#[trigger] planned(positions, i) <==> wanted(listing[i])),
    ensures
        items_at(listing, positions) == listing.take(n).filter(wanted),
    decreases n,
{
    if n == 0 {
        if positions.len() > 0 {
            assert(positions[0] < 0);
        }
        reveal(Seq::filter);
        assert(listing.take(0).len() == 0);
        assert(items_at(listing, positions) =~= listing.take(n).filter(wanted));
    } else {
        let last = n - 1;
        assert(listing.take(n) =~= listing.take(last).push(listing[last]));
        listing.take(last).lemma_filter_push(listing[last], wanted);
        if wanted(listing[last]) {
            assert(planned(positions, last));
            let k = choose|k: int| 0 <= k < positions.len() && positions[k] == last;
            if k < positions.len() - 1 {
                assert(positions[k] < positions[positions.len() - 1]);
            }
            let rest = positions.drop_last();
            assert forall|i: int| 0 <= i < last implies (#[trigger] planned(rest, i) <==> wanted(
                listing[i],
            )) by {
                assert(planned(positions, i) <==> wanted(listing[i]));
                if planned(positions, i) {
                    let w = choose|w: int| 0 <= w < positions.len() && positions[w] == i;
                    assert(rest[w] == i);
                }
                if planned(rest, i) {
                    let w = choose|w: int| 0 <= w < rest.len() && rest[w] == i;
                    assert(positions[w] == i);
                }
            }
            assert forall|w: int| 0 <= w < rest.len() implies rest[w] < last by {
                assert(positions[w] < positions[positions.len() - 1]);
            }
            lemma_rising_positions_select(rest, listing, last, wanted);
            assert(items_at(listing, positions) =~= items_at(listing, rest).push(listing[last]));
        } else {
            assert forall|w: int| 0 <= w < positions.len() implies positions[w] < last by {
                if positions[w] == last {
                    assert(planned(positions, last));
                }
            }
            assert forall|i: int| 0 <= i < last implies (#[trigger] planned(positions, i)
                <==> wanted(listing[i])) by {
                assert(planned(positions, i) <==> wanted(listing[i]));
            }
            lemma_rising_positions_select(positions, listing, last, wanted);
        }
    }
}

/// At startup, with no reader yet, discovery attempts an open on an entry of
/// the directory exactly when the entry denotes a keyboard: the entries that
/// it opens are the keyboards of the listing, each once and in the order of
/// the listing, and no other entry is ever opened. Items that could not be
/// read take nothing from this: the entries behind them are scanned as well.
pub proof fn lemma_discovery_opens_exactly_the_keyboards(
    listing: Seq<ListingItem>,
    open: Seq<usize>,
    unreadable: Seq<usize>,
)
    requires
        is_directory_listing(listing),
        is_plan(listing, Set::empty(), open, unreadable),
    ensures
        forall|i: int|
            0 <= i < listing.len() ==> (#[trigger] planned(open, i) <==> listing[i].is_keyboard()),
        items_at(listing, open) == keyboards(listing),
        open.len() == keyboard_count(listing),
{
    assert forall|i: int| 0 <= i < listing.len() implies (#[trigger] planned(open, i)
        <==> listing[i].is_keyboard()) by {
        assert(planned(open, i) <==> attaches_at(listing, Set::empty(), i));
        if listing[i].path().is_some() {
            assert forall|j: int| 0 <= j < i implies (#[trigger] listing[j]).path()
                != listing[i].path() by {
                if listing[j].path().is_some() {
                    assert(listing[j].path() != listing[i].path());
                }
            }
        }
    }
    let wanted = |item: ListingItem| item.is_keyboard();
    lemma_rising_positions_select(open, listing, listing.len() as int, wanted);
    assert(listing.take(listing.len() as int) =~= listing);
    assert(items_at(listing, open).len() == open.len());
}

/// The plan names every item that could not be read, and no entry.
pub proof fn lemma_discovery_reports_the_unreadable(
    listing: Seq<ListingItem>,
    active: Set<Seq<u8>>,
    open: Seq<usize>,
    unreadable: Seq<usize>,
)
    requires
        is_plan(listing, active, open, unreadable),
    ensures
        items_at(listing, unreadable) == listing.filter(
            |item: ListingItem| item.path().is_none(),
        ),
        forall|k: int| 0 <= k < open.len() ==> (#[trigger] listing[open[k] as int]).is_keyboard(),
{
    let wanted = |item: ListingItem| item.path().is_none();
    lemma_rising_positions_select(unreadable, listing, listing.len() as int, wanted);
    assert(listing.take(listing.len() as int) =~= listing);
    assert forall|k: int| 0 <= k < open.len() implies (#[trigger] listing[open[k] as int])
        .is_keyboard() by {
        assert(planned(open, open[k] as int));
    }
}

/// At startup discovery attempts one open for each of the keyboards of the
/// directory. Each attempt starts a reader exactly when its own open
/// succeeds, and none ends the scan: the readers started are as many as the
/// opens that succeeded, whatever became of the others, and as many as the
/// keyboards when every open succeeds.
pub proof fn lemma_discovery_starts_a_reader_per_opened_keyboard(
    listing: Seq<ListingItem>,
    open: Seq<usize>,
    unreadable: Seq<usize>,
    policy: OpenFailurePolicy,
    opened: Seq<bool>,
)
    requires
        is_directory_listing(listing),
        is_plan(listing, Set::empty(), open, unreadable),
        opened.len() == open.len(),
    ensures
        open.len() == keyboard_count(listing),
        forall|k: int|
            0 <= k < opened.len() ==> (#[trigger] discovery_decisions(policy, opened)[k]
                == OpenDecision::StartReader <==> opened[k]),
        forall|k: int|
            0 <= k < opened.len() ==> #[trigger] discovery_decisions(policy, opened)[k]
                != OpenDecision::Abort,
        readers_started(discovery_decisions(policy, opened)) == opened.filter(|ok: bool| ok).len(),
        (forall|k: int| 0 <= k < opened.len() ==> opened[k]) ==> readers_started(
            discovery_decisions(policy, opened),
        ) == keyboard_count(listing),
{
    lemma_discovery_opens_exactly_the_keyboards(listing, open, unreadable);
    lemma_started_counts_successes(policy, opened);
}

/// Discovery starts as many readers as opens succeeded.
proof fn lemma_started_counts_successes(policy: OpenFailurePolicy, opened: Seq<bool>)
    ensures
        readers_started(discovery_decisions(policy, opened)) == opened.filter(|ok: bool| ok).len(),
        (forall|k: int| 0 <= k < opened.len() ==> opened[k]) ==> readers_started(
            discovery_decisions(policy, opened),
        ) == opened.len(),
    decreases opened.len(),
{
    let started = |d: OpenDecision| d == OpenDecision::StartReader;
    let succeeded = |ok: bool| ok;
    if opened.len() == 0 {
        reveal(Seq::filter);
        assert(discovery_decisions(policy, opened).len() == 0);
    } else {
        let rest = opened.drop_last();
        lemma_started_counts_successes(policy, rest);
        assert(opened =~= rest.push(opened.last()));
        assert(discovery_decisions(policy, opened) =~= discovery_decisions(policy, rest).push(
            open_decision(OpenOrigin::Discovery, policy, opened.last()),
        ));
        rest.lemma_filter_len_push(succeeded, opened.last());
        discovery_decisions(policy, rest).lemma_filter_len_push(
            started,
            open_decision(OpenOrigin::Discovery, policy, opened.last()),
        );
        if forall|k: int| 0 <= k < opened.len() ==> opened[k] {
            assert forall|k: int| 0 <= k < rest.len() implies rest[k] by {
                assert(opened[k]);
            }
            assert(opened[opened.len() - 1]);
        }
    }
}

} // verus!
