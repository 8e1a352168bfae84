//! Reconciliation: classifying a secondary feed's channels as already
//! known or newly discovered relative to the accumulated identity state,
//! and dropping programs of already-known channels.
use crate::channel::Channel;
use crate::program::{Program, ProgramView};
use vstd::prelude::*;
use vstd::seq_lib::group_filter_ensures;

verus! {

broadcast use group_filter_ensures;

/// The business keys of a list of id strings, in order.
pub open spec fn id_seq(ids: Seq<String>) -> Seq<Seq<char>> {
    ids.map_values(|s: String| s@)
}

/// The set of business keys a list of id strings holds.
pub open spec fn id_set(ids: Seq<String>) -> Set<Seq<char>> {
    id_seq(ids).to_set()
}

/// The business keys of a list of channels, in order.
pub open spec fn chan_id_seq(s: Seq<Channel>) -> Seq<Seq<char>> {
    s.map_values(|c: Channel| c.channel_id@)
}

/// The set of business keys a list of channels holds.
pub open spec fn chan_ids(s: Seq<Channel>) -> Set<Seq<char>> {
    chan_id_seq(s).to_set()
}

/// The images of a list of programs, in order.
pub open spec fn program_views(s: Seq<Program>) -> Seq<ProgramView> {
    s.map_values(|p: Program| p@)
}

/// A channel whose business key the base set already holds.
pub open spec fn known_pred(b: Set<Seq<char>>) -> spec_fn(Channel) -> bool {
    |c: Channel| b.contains(c.channel_id@)
}

/// A channel whose business key is absent from the base set.
pub open spec fn unknown_pred(b: Set<Seq<char>>) -> spec_fn(Channel) -> bool {
    |c: Channel| !b.contains(c.channel_id@)
}

/// A program kept by reconciliation: its channel is not already known.
pub open spec fn keep_program(b: Set<Seq<char>>) -> spec_fn(ProgramView) -> bool {
    |pv: ProgramView| !b.contains(pv.channel_id)
}

/// What reconciling one secondary feed yields: the partition of its
/// channels, the programs that survive, and the identity state handed to
/// the next feed.
pub struct Reconciliation {
    /// Channels whose identity the catalog already has; only their package
    /// membership is recorded.
    pub known: Vec<Channel>,
    /// Channels new to the catalog; inserted together with their package
    /// membership.
    pub unknown: Vec<Channel>,
    /// Programs of channels new to the catalog; all others are dropped as
    /// duplicates of an earlier feed's load.
    pub programs: Vec<Program>,
    /// The identity state for the next feed: the prior state plus every
    /// key this feed carried.
    pub updated_ids: Vec<String>,
}

/// Filtering keeps only elements of the sequence it started from.
proof fn lemma_filter_subset<A>(s: Seq<A>, pred: spec_fn(A) -> bool)
    ensures
        forall|x: A| #[trigger] s.filter(pred).contains(x) ==> s.contains(x),
    decreases s.len(),
{
    reveal(Seq::filter);
    if s.len() > 0 {
        lemma_filter_subset(s.drop_last(), pred);
        assert forall|x: A| s.filter(pred).contains(x) implies s.contains(x) by {
            let sub = s.drop_last().filter(pred);
            if pred(s.last()) {
                if sub.contains(x) {
                    let j = choose|j: int| 0 <= j < s.drop_last().len() && s.drop_last()[j] == x;
                    assert(s[j] == x);
                } else {
                    let i = choose|i: int|
                        0 <= i < s.filter(pred).len() && s.filter(pred)[i] == x;
                    assert(s.filter(pred) == sub.push(s.last()));
                    if i < sub.len() {
                        assert(sub[i] == x);
                        assert(sub.contains(x));
                        assert(false);
                    } else {
                        assert(x == s.last());
                        assert(s[s.len() - 1] == x);
                    }
                }
            } else {
                assert(s.filter(pred) == sub);
                let j = choose|j: int| 0 <= j < s.drop_last().len() && s.drop_last()[j] == x;
                assert(s[j] == x);
            }
        }
    }
}

/// One more element extends the filtered image by that element exactly
/// when it satisfies the predicate.
pub proof fn lemma_filter_push<A>(s: Seq<A>, x: A, pred: spec_fn(A) -> bool)
    ensures
        s.push(x).filter(pred) == if pred(x) {
            s.filter(pred).push(x)
        } else {
            s.filter(pred)
        },
{
    reveal_with_fuel(Seq::filter, 2);
    assert(s.push(x).drop_last() =~= s);
    assert(s.push(x).last() == x);
}

/// One more element makes the element set grow by exactly that element.
proof fn lemma_to_set_push<A>(s: Seq<A>, x: A)
    ensures
        s.push(x).to_set() == s.to_set().insert(x),
{
    assert forall|y: A| s.push(x).to_set().contains(y) implies s.to_set().insert(x).contains(
        y,
    ) by {
        let i = choose|i: int| 0 <= i < s.push(x).len() && s.push(x)[i] == y;
        if i < s.len() {
            assert(s[i] == y);
        } else {
            assert(y == x);
        }
    }
    assert forall|y: A| s.to_set().insert(x).contains(y) implies s.push(x).to_set().contains(
        y,
    ) by {
        if y == x {
            assert(s.push(x)[s.len() as int] == y);
        } else {
            let i = choose|i: int| 0 <= i < s.len() && s[i] == y;
            assert(s.push(x)[i] == y);
        }
    }
    assert(s.push(x).to_set() =~= s.to_set().insert(x));
}

/// Whether the set of keys `ids` holds contains `id`.
fn contains_id(ids: &Vec<String>, id: &String) -> (r: bool)
    ensures
        r == id_set(ids@).contains(id@),
{
    let mut i: usize = 0;
    while i < ids.len()
        invariant
            i <= ids@.len(),
            forall|j: int| 0 <= j < i ==> #[trigger] ids@[j]@ != id@,
        decreases ids@.len() - i,
    {
        if ids[i].eq(id) {
            proof {
                assert(id_seq(ids@)[i as int] == id@);
            }
            return true;
        }
        i = i + 1;
    }
    proof {
        if id_set(ids@).contains(id@) {
            let j = choose|j: int| 0 <= j < id_seq(ids@).len() && id_seq(ids@)[j] == id@;
            assert(ids@[j]@ == id@);
        }
    }
    false
}

/// Reconciles one secondary feed against the accumulated identity state:
/// partitions its channels into known and unknown, keeps only programs of
/// unknown channels, and adds every key the feed carried to the state.
pub fn reconcile_feed(known_ids: &Vec<String>, channels: &Vec<Channel>, programs: &Vec<Program>)
    -> (r: Reconciliation)
    ensures
        r.known@ == channels@.filter(known_pred(id_set(known_ids@))),
        r.unknown@ == channels@.filter(unknown_pred(id_set(known_ids@))),
        program_views(r.programs@) == program_views(programs@).filter(
            keep_program(id_set(known_ids@)),
        ),
        id_set(r.updated_ids@) == id_set(known_ids@).union(chan_ids(channels@)),
{
    let ghost b = id_set(known_ids@);
    let mut known: Vec<Channel> = Vec::new();
    let mut unknown: Vec<Channel> = Vec::new();
    let mut i: usize = 0;
    #[verifier::loop_isolation(false)]
    while i < channels.len()
        invariant
            i <= channels@.len(),
            known@ == channels@.take(i as int).filter(known_pred(b)),
            unknown@ == channels@.take(i as int).filter(unknown_pred(b)),
        decreases channels@.len() - i,
    {
        let c = &channels[i];
        proof {
            assert(channels@.take(i as int + 1) =~= channels@.take(i as int).push(
                channels@[i as int],
            ));
            lemma_filter_push(channels@.take(i as int), channels@[i as int], known_pred(b));
            lemma_filter_push(channels@.take(i as int), channels@[i as int], unknown_pred(b));
        }
        if contains_id(known_ids, &c.channel_id) {
            known.push(c.clone());
        } else {
            unknown.push(c.clone());
        }
        i = i + 1;
    }
    proof {
        assert(channels@.take(channels@.len() as int) =~= channels@);
    }

    let mut kept: Vec<Program> = Vec::new();
    let mut j: usize = 0;
    #[verifier::loop_isolation(false)]
    while j < programs.len()
        invariant
            j <= programs@.len(),
            program_views(kept@) == program_views(programs@).take(j as int).filter(
                keep_program(b),
            ),
        decreases programs@.len() - j,
    {
        let p = &programs[j];
        proof {
            assert(program_views(programs@).take(j as int + 1) =~= program_views(
                programs@,
            ).take(j as int).push(programs@[j as int]@));
            lemma_filter_push(
                program_views(programs@).take(j as int),
                programs@[j as int]@,
                keep_program(b),
            );
            assert(program_views(programs@)[j as int] == programs@[j as int]@);
        }
        if !contains_id(known_ids, &p.channel_id) {
            kept.push(p.clone());
            proof {
                assert(program_views(kept@) =~= program_views(programs@).take(
                    j as int + 1,
                ).filter(keep_program(b)));
            }
        } else {
            proof {
                assert(program_views(kept@) =~= program_views(programs@).take(
                    j as int + 1,
                ).filter(keep_program(b)));
            }
        }
        j = j + 1;
    }
    proof {
        assert(program_views(programs@).take(programs@.len() as int) =~= program_views(
            programs@,
        ));
    }

    let mut updated_ids: Vec<String> = clone_ids(known_ids);
    let mut k: usize = 0;
    #[verifier::loop_isolation(false)]
    while k < channels.len()
        invariant
            k <= channels@.len(),
            id_set(updated_ids@) == id_set(known_ids@).union(chan_ids(channels@.take(k as int))),
        decreases channels@.len() - k,
    {
        let ghost pre = updated_ids@;
        updated_ids.push(channels[k].channel_id.clone());
        proof {
            let x = channels@[k as int].channel_id@;
            assert(id_seq(updated_ids@) =~= id_seq(pre).push(x));
            lemma_to_set_push(id_seq(pre), x);
            assert(id_set(updated_ids@) == id_set(pre).insert(x));
            assert(chan_id_seq(channels@.take(k as int + 1)) =~= chan_id_seq(channels@.take(
                k as int,
            )).push(x));
            lemma_to_set_push(chan_id_seq(channels@.take(k as int)), x);
            assert(chan_ids(channels@.take(k as int + 1)) == chan_ids(channels@.take(
                k as int,
            )).insert(x));
            assert(id_set(updated_ids@) =~= id_set(known_ids@).union(chan_ids(channels@.take(
                k as int + 1,
            ))));
        }
        k = k + 1;
    }
    proof {
        assert(channels@.take(channels@.len() as int) =~= channels@);
    }
    Reconciliation { known, unknown, programs: kept, updated_ids }
}

/// A fresh copy of the identity state.
fn clone_ids(ids: &Vec<String>) -> (r: Vec<String>)
    ensures
        r@ == ids@,
{
    let r = ids.clone();
    proof {
        assert(r@ =~= ids@);
    }
    r
}

/// Reconciliation partitions: for base set B and secondary channels S,
/// the known keys are S's keys within B, the unknown keys are S's keys
/// outside B, together they are exactly S's keys, and none is both.
pub proof fn lemma_reconciliation_partition(ids: Seq<String>, s: Seq<Channel>)
    ensures
        chan_ids(s.filter(known_pred(id_set(ids)))) == chan_ids(s).intersect(id_set(ids)),
        chan_ids(s.filter(unknown_pred(id_set(ids)))) == chan_ids(s).difference(id_set(ids)),
        chan_ids(s.filter(known_pred(id_set(ids)))).union(
            chan_ids(s.filter(unknown_pred(id_set(ids)))),
        ) == chan_ids(s),
        chan_ids(s.filter(known_pred(id_set(ids)))).intersect(
            chan_ids(s.filter(unknown_pred(id_set(ids)))),
        ) == Set::<Seq<char>>::empty(),
{
    let b = id_set(ids);
    let known = s.filter(known_pred(b));
    let unknown = s.filter(unknown_pred(b));
    lemma_filter_subset(s, known_pred(b));
    lemma_filter_subset(s, unknown_pred(b));
    assert forall|x: Seq<char>| #[trigger] chan_ids(known).contains(x) implies chan_ids(
        s,
    ).contains(x) && b.contains(x) by {
        let i = choose|i: int| 0 <= i < known.len() && chan_id_seq(known)[i] == x;
        assert(known[i].channel_id@ == x);
        assert(known_pred(b)(known[i]));
        assert(known.contains(known[i]));
        assert(s.contains(known[i]));
        let j = choose|j: int| 0 <= j < s.len() && s[j] == known[i];
        assert(chan_id_seq(s)[j] == x);
    }
    assert forall|x: Seq<char>| #[trigger] chan_ids(unknown).contains(x) implies chan_ids(
        s,
    ).contains(x) && !b.contains(x) by {
        let i = choose|i: int| 0 <= i < unknown.len() && chan_id_seq(unknown)[i] == x;
        assert(unknown[i].channel_id@ == x);
        assert(unknown_pred(b)(unknown[i]));
        assert(unknown.contains(unknown[i]));
        assert(s.contains(unknown[i]));
        let j = choose|j: int| 0 <= j < s.len() && s[j] == unknown[i];
        assert(chan_id_seq(s)[j] == x);
    }
    assert forall|x: Seq<char>| #[trigger] chan_ids(s).contains(x) implies (if b.contains(x) {
        chan_ids(known).contains(x)
    } else {
        chan_ids(unknown).contains(x)
    }) by {
        let i = choose|i: int| 0 <= i < s.len() && chan_id_seq(s)[i] == x;
        assert(s[i].channel_id@ == x);
        if b.contains(x) {
            assert(known_pred(b)(s[i]));
            assert(known.contains(s[i]));
            let j = choose|j: int| 0 <= j < known.len() && known[j] == s[i];
            assert(chan_id_seq(known)[j] == x);
        } else {
            assert(unknown_pred(b)(s[i]));
            assert(unknown.contains(s[i]));
            let j = choose|j: int| 0 <= j < unknown.len() && unknown[j] == s[i];
            assert(chan_id_seq(unknown)[j] == x);
        }
    }
    assert(chan_ids(known) =~= chan_ids(s).intersect(b));
    assert(chan_ids(unknown) =~= chan_ids(s).difference(b));
    assert(chan_ids(known).union(chan_ids(unknown)) =~= chan_ids(s));
    assert(chan_ids(known).intersect(chan_ids(unknown)) =~= Set::<Seq<char>>::empty());
}

/// Reconciliation accumulates: a channel a secondary feed introduced as
/// unknown is classified known when the next feed in sequence carries the
/// same identity, because the updated state holds every key of the
/// earlier feed.
pub proof fn lemma_reconciliation_accumulates(
    ids1: Seq<String>,
    s1: Seq<Channel>,
    ids2: Seq<String>,
    c: Channel,
    d: Channel,
)
    requires
        id_set(ids2) == id_set(ids1).union(chan_ids(s1)),
        s1.contains(c),
        unknown_pred(id_set(ids1))(c),
        d.channel_id@ == c.channel_id@,
    ensures
        known_pred(id_set(ids2))(d),
{
    let i = choose|i: int| 0 <= i < s1.len() && s1[i] == c;
    assert(chan_id_seq(s1)[i] == c.channel_id@);
    assert(chan_ids(s1).contains(c.channel_id@));
}

/// Programs of known channels are dropped: a program whose channel key
/// the base set holds never appears in the kept load set.
pub proof fn lemma_known_channel_programs_dropped(
    b: Set<Seq<char>>,
    progs: Seq<ProgramView>,
    i: int,
)
    requires
        0 <= i < progs.len(),
        b.contains(progs[i].channel_id),
    ensures
        !progs.filter(keep_program(b)).contains(progs[i]),
{
    if progs.filter(keep_program(b)).contains(progs[i]) {
        let j = choose|j: int|
            0 <= j < progs.filter(keep_program(b)).len() && progs.filter(keep_program(b))[j]
                == progs[i];
        assert(keep_program(b)(progs.filter(keep_program(b))[j]));
    }
}

} // verus!
