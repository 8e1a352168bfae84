//! Program and channel query resolution: point-in-time lookups, bounded
//! forward listings, and free-text search over program rows.
use crate::channel::Channel;
use crate::page::Page;
use crate::program::{Program, ProgramView};
use crate::reconcile::program_views;
use crate::text::{
    contains_lower, contains_sub, is_valid_query, lower_seq, valid_query_text,
};
use crate::time_source::{now_utc_secs, today_local_at_secs};
use vstd::prelude::*;

verus! {

/// How many rows a forward listing may return.
pub const UPCOMING_LIMIT: usize = 100;

/// The reference local time a "tonight" lookup starts at: 20:30.
pub const TONIGHT_HOUR: u32 = 20;

/// The reference local minute a "tonight" lookup starts at.
pub const TONIGHT_MINUTE: u32 = 30;

/// The program is running at `now`: on air from its start (inclusive) to
/// its end (exclusive).
pub open spec fn is_current(pv: ProgramView, now: i64) -> bool {
    pv.start_time.utc_secs <= now < pv.end_time.utc_secs
}

/// A program of the channel that is running at `now`.
pub open spec fn current_match(cid: Seq<char>, now: i64) -> spec_fn(ProgramView) -> bool {
    |pv: ProgramView| pv.channel_id == cid && is_current(pv, now)
}

/// The program belongs to the channel, starts at or after `target` and
/// runs at least `min_secs` seconds.
pub open spec fn tonight_qualifies(pv: ProgramView, cid: Seq<char>, target: i64, min_secs: int)
    -> bool {
    pv.channel_id == cid && pv.start_time.utc_secs >= target && pv.end_time.utc_secs
        - pv.start_time.utc_secs >= min_secs
}

/// The same, with the minimum duration as whole minutes.
pub open spec fn tonight_qualifies_mins(
    pv: ProgramView,
    cid: Seq<char>,
    target: i64,
    mins: u32,
) -> bool {
    tonight_qualifies(pv, cid, target, mins as int * 60)
}

/// A program of the channel starting at or after `target` and running at
/// least `min_secs` seconds.
pub open spec fn tonight_match(cid: Seq<char>, target: i64, min_secs: int) -> spec_fn(
    ProgramView,
) -> bool {
    |pv: ProgramView| tonight_qualifies(pv, cid, target, min_secs)
}

/// A program of the channel starting at or after `now`.
pub open spec fn upcoming_match(cid: Seq<char>, now: i64) -> spec_fn(ProgramView) -> bool {
    |pv: ProgramView| pv.channel_id == cid && pv.start_time.utc_secs >= now
}

/// The query occurs, case-folded, in the program's title, sub-title or
/// description.
pub open spec fn search_match(q: Seq<char>) -> spec_fn(ProgramView) -> bool {
    |pv: ProgramView|
        contains_sub(lower_seq(pv.title), q) || (pv.sub_title matches Some(st) && contains_sub(
            lower_seq(st),
            q,
        )) || (pv.description matches Some(d) && contains_sub(lower_seq(d), q))
}

/// The single program of the channel on air at `now`: the first one in row
/// order whose half-open window holds `now`; none when no window does.
pub fn current_program_at(programs: &Vec<Program>, channel_id: &String, now: i64) -> (r: Option<
    Program,
>)
    ensures
        r matches Some(p) ==> exists|i: int|
            0 <= i < programs@.len() && p@ == #[trigger] programs@[i]@ && current_match(
                channel_id@,
                now,
            )(programs@[i]@) && (forall|j: int|
                0 <= j < i ==> !current_match(channel_id@, now)(#[trigger] programs@[j]@)),
        r is None ==> forall|i: int|
            0 <= i < programs@.len() ==> !current_match(channel_id@, now)(
                #[trigger] programs@[i]@,
            ),
{
    let mut i: usize = 0;
    while i < programs.len()
        invariant
            i <= programs@.len(),
            forall|j: int|
                0 <= j < i ==> !current_match(channel_id@, now)(#[trigger] programs@[j]@),
        decreases programs@.len() - i,
    {
        let p = &programs[i];
        if p.channel_id.eq(channel_id) && p.start_time.utc_secs <= now && now
            < p.end_time.utc_secs {
            proof {
                assert(current_match(channel_id@, now)(programs@[i as int]@));
            }
            return Some(p.clone());
        }
        i = i + 1;
    }
    None
}

/// The first program of the channel, by start time, beginning at or after
/// `target` and lasting at least `min_duration_mins` minutes; among equal
/// starts, the earliest in row order; none when no program qualifies.
pub fn tonight_program_at(
    programs: &Vec<Program>,
    channel_id: &String,
    target: i64,
    min_duration_mins: u32,
) -> (r: Option<Program>)
    ensures
        ({
            let q = tonight_match(channel_id@, target, min_duration_mins as int * 60);
            &&& (r matches Some(p) ==> exists|i: int|
                0 <= i < programs@.len() && p@ == #[trigger] programs@[i]@ && q(programs@[i]@)
                    && (forall|j: int|
                    0 <= j < programs@.len() && q(#[trigger] programs@[j]@) ==> (
                    programs@[i]@.start_time.utc_secs < programs@[j]@.start_time.utc_secs || (
                    programs@[i]@.start_time.utc_secs == programs@[j]@.start_time.utc_secs && i
                        <= j))))
            &&& (r is None ==> forall|i: int|
                0 <= i < programs@.len() ==> !q(#[trigger] programs@[i]@))
        }),
{
    let ghost q = tonight_match(channel_id@, target, min_duration_mins as int * 60);
    let min_secs: i128 = min_duration_mins as i128 * 60;
    let mut best: Option<usize> = None;
    let mut i: usize = 0;
    #[verifier::loop_isolation(false)]
    while i < programs.len()
        invariant
            i <= programs@.len(),
            best matches Some(bi) ==> bi < i && q(programs@[bi as int]@) && (forall|j: int|
                0 <= j < i && q(#[trigger] programs@[j]@)
                    ==> (programs@[bi as int]@.start_time.utc_secs
                    < programs@[j]@.start_time.utc_secs || (
                programs@[bi as int]@.start_time.utc_secs == programs@[j]@.start_time.utc_secs
                    && bi <= j))),
            best is None ==> forall|j: int| 0 <= j < i ==> !q(#[trigger] programs@[j]@),
        decreases programs@.len() - i,
    {
        let p = &programs[i];
        let qualifies = p.channel_id.eq(channel_id) && p.start_time.utc_secs >= target && (
        p.end_time.utc_secs as i128 - p.start_time.utc_secs as i128) >= min_secs;
        proof {
            assert(qualifies == q(programs@[i as int]@));
        }
        if qualifies {
            match best {
                None => {
                    best = Some(i);
                },
                Some(bi) => {
                    if p.start_time.utc_secs < programs[bi].start_time.utc_secs {
                        best = Some(i);
                    }
                },
            }
        }
        i = i + 1;
    }
    match best {
        Some(bi) => Some(programs[bi].clone()),
        None => None,
    }
}

/// Inserts `p` before the first later-starting entry, keeping the list
/// sorted by start time and stable for equal starts.
fn insert_sorted(v: &mut Vec<Program>, p: Program)
    ensures
        program_views(final(v)@) == insert_by_start(program_views(old(v)@), p@),
{
    let mut j: usize = v.len();
    while j > 0 && v[j - 1].start_time.utc_secs > p.start_time.utc_secs
        invariant
            j <= v@.len(),
            forall|k: int|
                j <= k < v@.len() ==> (#[trigger] v@[k]@).start_time.utc_secs
                    > p@.start_time.utc_secs,
        decreases j,
    {
        j = j - 1;
    }
    proof {
        lemma_insert_by_start_at(program_views(v@), p@, j as int);
    }
    let ghost pre = v@;
    let ghost pj = p@;
    v.insert(j, p);
    proof {
        assert(program_views(v@) =~= program_views(pre).take(j as int) + seq![pj]
            + program_views(pre).skip(j as int));
    }
}

/// Where `p` lands in a start-sorted list: after every entry at or below
/// its start, before every later-starting entry.
pub open spec fn insert_by_start(s: Seq<ProgramView>, pv: ProgramView) -> Seq<ProgramView>
    decreases s.len(),
{
    if s.len() == 0 {
        seq![pv]
    } else if s.last().start_time.utc_secs <= pv.start_time.utc_secs {
        s.push(pv)
    } else {
        insert_by_start(s.drop_last(), pv).push(s.last())
    }
}

/// The list sorted by start time, stably, by repeated insertion.
pub open spec fn sort_by_start(s: Seq<ProgramView>) -> Seq<ProgramView>
    decreases s.len(),
{
    if s.len() == 0 {
        Seq::<ProgramView>::empty()
    } else {
        insert_by_start(sort_by_start(s.drop_last()), s.last())
    }
}

/// When everything from `j` on starts later than `pv` and the entry before
/// `j` (if any) does not, insertion lands exactly at `j`.
proof fn lemma_insert_by_start_at(s: Seq<ProgramView>, pv: ProgramView, j: int)
    requires
        0 <= j <= s.len(),
        forall|k: int|
            j <= k < s.len() ==> (#[trigger] s[k]).start_time.utc_secs > pv.start_time.utc_secs,
        j == 0 || s[j - 1].start_time.utc_secs <= pv.start_time.utc_secs,
    ensures
        insert_by_start(s, pv) == s.take(j) + seq![pv] + s.skip(j),
    decreases s.len(),
{
    if s.len() == 0 {
        assert(insert_by_start(s, pv) =~= s.take(j) + seq![pv] + s.skip(j));
    } else if s.last().start_time.utc_secs <= pv.start_time.utc_secs {
        assert(j == s.len());
        assert(s.push(pv) =~= s.take(j) + seq![pv] + s.skip(j));
    } else {
        assert(j < s.len());
        lemma_insert_by_start_at(s.drop_last(), pv, j);
        assert(insert_by_start(s, pv) =~= s.take(j) + seq![pv] + s.skip(j)) by {
            assert(s.drop_last().take(j) =~= s.take(j));
            assert(insert_by_start(s.drop_last(), pv) == s.drop_last().take(j) + seq![pv]
                + s.drop_last().skip(j));
        }
    }
}

/// Entries appear in ascending start order.
pub open spec fn sorted_by_start(s: Seq<ProgramView>) -> bool {
    forall|i: int, j: int|
        0 <= i < j < s.len() ==> s[i].start_time.utc_secs <= s[j].start_time.utc_secs
}

/// Insertion keeps the list sorted and adds exactly the new entry.
pub proof fn lemma_insert_by_start_sorted(s: Seq<ProgramView>, pv: ProgramView)
    requires
        sorted_by_start(s),
    ensures
        sorted_by_start(insert_by_start(s, pv)),
        insert_by_start(s, pv).to_multiset() == s.to_multiset().insert(pv),
        insert_by_start(s, pv).len() == s.len() + 1,
    decreases s.len(),
{
    broadcast use vstd::seq_lib::group_to_multiset_ensures;
    broadcast use vstd::multiset::group_multiset_axioms;

    if s.len() == 0 {
        let e = Seq::<ProgramView>::empty();
        assert(seq![pv] =~= e.push(pv));
        vstd::multiset::lemma_multiset_empty_len::<ProgramView>(e.to_multiset());
        assert(e.to_multiset() =~= vstd::multiset::Multiset::<ProgramView>::empty());
        assert(insert_by_start(s, pv).to_multiset() =~= s.to_multiset().insert(pv));
    } else if s.last().start_time.utc_secs <= pv.start_time.utc_secs {
        let r = s.push(pv);
        assert forall|i: int, j: int| 0 <= i < j < r.len() implies r[i].start_time.utc_secs
            <= r[j].start_time.utc_secs by {
            if j == r.len() - 1 {
                if i < s.len() - 1 {
                    assert(s[i].start_time.utc_secs <= s[s.len() - 1].start_time.utc_secs);
                }
            }
        }
    } else {
        let dl = s.drop_last();
        assert(sorted_by_start(dl)) by {
            assert forall|i: int, j: int| 0 <= i < j < dl.len() implies dl[i].start_time.utc_secs
                <= dl[j].start_time.utc_secs by {
                assert(dl[i] == s[i]);
                assert(dl[j] == s[j]);
            }
        }
        lemma_insert_by_start_sorted(dl, pv);
        let r0 = insert_by_start(dl, pv);
        let r = r0.push(s.last());
        assert(insert_by_start(s, pv) == r);
        assert(dl.push(s.last()) =~= s);
        assert(r.to_multiset() =~= s.to_multiset().insert(pv)) by {
            assert(r.to_multiset() =~= r0.to_multiset().insert(s.last()));
            assert(s.to_multiset() =~= dl.to_multiset().insert(s.last()));
            assert(dl.to_multiset().insert(pv).insert(s.last()) =~= dl.to_multiset().insert(
                s.last(),
            ).insert(pv));
        }
        assert forall|i: int, j: int| 0 <= i < j < r.len() implies r[i].start_time.utc_secs
            <= r[j].start_time.utc_secs by {
            if j == r.len() - 1 {
                assert(r[j] == s.last());
                assert(r0.contains(r0[i]));
                assert(r0.to_multiset().count(r0[i]) > 0);
                if r0[i] != pv {
                    assert(dl.to_multiset().count(r0[i]) > 0);
                    assert(dl.contains(r0[i]));
                    let idx = choose|idx: int| 0 <= idx < dl.len() && dl[idx] == r0[i];
                    assert(s[idx] == r0[i]);
                    assert(s[idx].start_time.utc_secs <= s[s.len() - 1].start_time.utc_secs);
                }
            }
        }
    }
}

/// The sort ascends by start time and keeps exactly the given entries.
pub proof fn lemma_sort_by_start_sorted(s: Seq<ProgramView>)
    ensures
        sorted_by_start(sort_by_start(s)),
        sort_by_start(s).to_multiset() == s.to_multiset(),
        sort_by_start(s).len() == s.len(),
    decreases s.len(),
{
    broadcast use vstd::seq_lib::group_to_multiset_ensures;

    if s.len() > 0 {
        let dl = s.drop_last();
        lemma_sort_by_start_sorted(dl);
        lemma_insert_by_start_sorted(sort_by_start(dl), s.last());
        assert(dl.push(s.last()) =~= s);
        assert(sort_by_start(s).to_multiset() =~= s.to_multiset()) by {
            assert(sort_by_start(s).to_multiset() =~= sort_by_start(dl).to_multiset().insert(
                s.last(),
            ));
            assert(s.to_multiset() =~= dl.to_multiset().insert(s.last()));
        }
    }
}

/// The programs of the channel starting at or after `now`, ascending by
/// start time, capped at the listing limit.
pub fn upcoming_programs_at(programs: &Vec<Program>, channel_id: &String, now: i64) -> (r: Vec<
    Program,
>)
    ensures
        ({
            let full = sort_by_start(
                program_views(programs@).filter(upcoming_match(channel_id@, now)),
            );
            program_views(r@) == if full.len() <= UPCOMING_LIMIT as int {
                full
            } else {
                full.take(UPCOMING_LIMIT as int)
            }
        }),
{
    let ghost m = upcoming_match(channel_id@, now);
    let mut out: Vec<Program> = Vec::new();
    let mut i: usize = 0;
    #[verifier::loop_isolation(false)]
    while i < programs.len()
        invariant
            i <= programs@.len(),
            program_views(out@) == sort_by_start(
                program_views(programs@).take(i as int).filter(m),
            ),
        decreases programs@.len() - i,
    {
        let p = &programs[i];
        proof {
            assert(program_views(programs@).take(i as int + 1) =~= program_views(
                programs@,
            ).take(i as int).push(programs@[i as int]@));
            crate::reconcile::lemma_filter_push(
                program_views(programs@).take(i as int),
                programs@[i as int]@,
                m,
            );
        }
        if p.channel_id.eq(channel_id) && p.start_time.utc_secs >= now {
            proof {
                assert(m(programs@[i as int]@));
            }
            insert_sorted(&mut out, p.clone());
            proof {
                let pre = program_views(programs@).take(i as int).filter(m);
                assert(pre.push(programs@[i as int]@).drop_last() =~= pre);
                assert(sort_by_start(pre.push(programs@[i as int]@)) == insert_by_start(
                    sort_by_start(pre),
                    programs@[i as int]@,
                ));
            }
        } else {
            proof {
                assert(!m(programs@[i as int]@));
            }
        }
        i = i + 1;
    }
    proof {
        assert(program_views(programs@).take(programs@.len() as int) =~= program_views(
            programs@,
        ));
    }
    if out.len() > UPCOMING_LIMIT {
        let ghost pre = out@;
        out.truncate(UPCOMING_LIMIT);
        proof {
            assert(program_views(out@) =~= program_views(pre).take(UPCOMING_LIMIT as int));
        }
    }
    out
}

/// The programs matching a free-text query, in row order: title, sub-title
/// or description holds the query once case-folded. A query with any
/// character outside lowercase letters and whitespace yields the empty
/// list, not an error.
pub fn search_programs(programs: &Vec<Program>, query: &String) -> (r: Vec<Program>)
    ensures
        !valid_query_text(query@) ==> r@.len() == 0,
        valid_query_text(query@) ==> program_views(r@) == program_views(programs@).filter(
            search_match(query@),
        ),
{
    if !is_valid_query(query.as_str()) {
        return Vec::new();
    }
    let ghost m = search_match(query@);
    let mut out: Vec<Program> = Vec::new();
    let mut i: usize = 0;
    #[verifier::loop_isolation(false)]
    while i < programs.len()
        invariant
            i <= programs@.len(),
            program_views(out@) == program_views(programs@).take(i as int).filter(m),
        decreases programs@.len() - i,
    {
        let p = &programs[i];
        let mut hit = contains_lower(p.title.as_str(), query.as_str());
        if !hit {
            hit = match &p.sub_title {
                Some(st) => contains_lower(st.as_str(), query.as_str()),
                None => false,
            };
        }
        if !hit {
            hit = match &p.description {
                Some(d) => contains_lower(d.as_str(), query.as_str()),
                None => false,
            };
        }
        proof {
            assert(hit == m(programs@[i as int]@));
            assert(program_views(programs@).take(i as int + 1) =~= program_views(
                programs@,
            ).take(i as int).push(programs@[i as int]@));
            crate::reconcile::lemma_filter_push(
                program_views(programs@).take(i as int),
                programs@[i as int]@,
                m,
            );
        }
        if hit {
            out.push(p.clone());
            proof {
                assert(program_views(out@) =~= program_views(programs@).take(
                    i as int + 1,
                ).filter(m));
            }
        } else {
            proof {
                assert(program_views(out@) =~= program_views(programs@).take(
                    i as int + 1,
                ).filter(m));
            }
        }
        i = i + 1;
    }
    proof {
        assert(program_views(programs@).take(programs@.len() as int) =~= program_views(
            programs@,
        ));
    }
    out
}

/// The channels of a package: the whole catalog for the unfiltered tag
/// `"ALL"`, else those with a membership row under the tag.
pub fn get_channels_by_package(
    channels: &Vec<Channel>,
    memberships: &Vec<(String, String)>,
    package: String,
) -> (r: Vec<Channel>)
    ensures
        package@ == "ALL"@ ==> r@ == channels@,
        package@ != "ALL"@ ==> r@ == channels@.filter(member_pred(membership_views(memberships@),
            package@)),
{
    let all_tag = String::from_str("ALL");
    if package.eq(&all_tag) {
        return crate::load_plan::clone_channels(channels);
    }
    let ghost m = member_pred(membership_views(memberships@), package@);
    let mut out: Vec<Channel> = Vec::new();
    let mut i: usize = 0;
    #[verifier::loop_isolation(false)]
    while i < channels.len()
        invariant
            i <= channels@.len(),
            out@ == channels@.take(i as int).filter(m),
        decreases channels@.len() - i,
    {
        let c = &channels[i];
        proof {
            assert(channels@.take(i as int + 1) =~= channels@.take(i as int).push(
                channels@[i as int],
            ));
            crate::reconcile::lemma_filter_push(
                channels@.take(i as int),
                channels@[i as int],
                m,
            );
        }
        if has_membership(memberships, &c.channel_id, &package) {
            out.push(c.clone());
        }
        i = i + 1;
    }
    proof {
        assert(channels@.take(channels@.len() as int) =~= channels@);
    }
    out
}

/// The images of membership rows: channel key and package tag.
pub open spec fn membership_views(ms: Seq<(String, String)>) -> Seq<(Seq<char>, Seq<char>)> {
    ms.map_values(|m: (String, String)| (m.0@, m.1@))
}

/// The key has a membership row under the package tag.
pub open spec fn member_key(ms: Seq<(Seq<char>, Seq<char>)>, package: Seq<char>, key: Seq<char>)
    -> bool {
    exists|k: int| 0 <= k < ms.len() && ms[k] == (key, package)
}

/// The channel has a membership row under the package tag.
pub open spec fn member_pred(ms: Seq<(Seq<char>, Seq<char>)>, package: Seq<char>) -> spec_fn(
    Channel,
) -> bool {
    |c: Channel| member_key(ms, package, c.channel_id@)
}

/// Whether a membership row pairs this channel key with this package tag.
fn has_membership(memberships: &Vec<(String, String)>, channel_id: &String, package: &String)
    -> (r: bool)
    ensures
        r == member_key(membership_views(memberships@), package@, channel_id@),
{
    let ghost ms = membership_views(memberships@);
    let mut i: usize = 0;
    while i < memberships.len()
        invariant
            i <= memberships@.len(),
            forall|k: int|
                0 <= k < i ==> #[trigger] membership_views(memberships@)[k] != (
                channel_id@,
                package@,
            ),
        decreases memberships@.len() - i,
    {
        let m = &memberships[i];
        if m.0.eq(channel_id) && m.1.eq(package) {
            proof {
                assert(membership_views(memberships@)[i as int] == (channel_id@, package@));
            }
            return true;
        }
        i = i + 1;
    }
    proof {
        if member_key(ms, package@, channel_id@) {
            let k = choose|k: int| 0 <= k < ms.len() && ms[k] == (channel_id@, package@);
            assert(membership_views(memberships@)[k] != (channel_id@, package@));
        }
    }
    false
}

/// One page of the channel's upcoming programs, from the clock's now.
pub fn get_programs_by_channel_id(programs: &Vec<Program>, channel_id: &String) -> (r: Page<
    Program,
>)
    ensures
        exists|now: i64|
            program_views(r.content@) == ({
                let full = sort_by_start(
                    #[trigger] program_views(programs@).filter(upcoming_match(channel_id@, now)),
                );
                if full.len() <= UPCOMING_LIMIT as int {
                    full
                } else {
                    full.take(UPCOMING_LIMIT as int)
                }
            }),
{
    let now = now_utc_secs();
    let content = upcoming_programs_at(programs, channel_id, now);
    Page { content }
}

/// The channel's program on air at the clock's now, if any.
pub fn get_current_program_by_channel_id(programs: &Vec<Program>, channel_id: &String) -> (r:
    Option<Program>)
    ensures
        r matches Some(p) ==> exists|now: i64, i: int|
            #![trigger is_current(programs@[i]@, now)]
            0 <= i < programs@.len() && p@ == programs@[i]@ && is_current(programs@[i]@, now)
                && programs@[i]@.channel_id == channel_id@,
{
    let now = now_utc_secs();
    let r = current_program_at(programs, channel_id, now);
    proof {
        if r is Some {
            let i = choose|i: int|
                0 <= i < programs@.len() && r.unwrap()@ == #[trigger] programs@[i]@
                    && current_match(channel_id@, now)(programs@[i]@) && (forall|j: int|
                    0 <= j < i ==> !current_match(channel_id@, now)(#[trigger] programs@[j]@));
            assert(is_current(programs@[i]@, now) && programs@[i]@.channel_id == channel_id@);
        }
    }
    r
}

/// The channel's first program, by start time, beginning at or after
/// tonight's reference time (20:30 local) and lasting at least the given
/// minimum, if any.
pub fn get_tonight_program_by_channel_id(
    programs: &Vec<Program>,
    channel_id: &String,
    min_duration_mins: u32,
) -> (r: Option<Program>)
    ensures
        r matches Some(p) ==> exists|target: i64, i: int|
            #![trigger tonight_qualifies_mins(programs@[i]@, channel_id@, target, min_duration_mins)]
            0 <= i < programs@.len() && p@ == programs@[i]@ && tonight_qualifies_mins(
                programs@[i]@,
                channel_id@,
                target,
                min_duration_mins,
            ),
{
    let target = today_local_at_secs(TONIGHT_HOUR, TONIGHT_MINUTE);
    let r = tonight_program_at(programs, channel_id, target, min_duration_mins);
    proof {
        if r is Some {
            let q = tonight_match(channel_id@, target, min_duration_mins as int * 60);
            let i = choose|i: int|
                0 <= i < programs@.len() && r.unwrap()@ == #[trigger] programs@[i]@ && q(
                    programs@[i]@,
                ) && (forall|j: int|
                    0 <= j < programs@.len() && q(#[trigger] programs@[j]@) ==> (
                    programs@[i]@.start_time.utc_secs < programs@[j]@.start_time.utc_secs || (
                    programs@[i]@.start_time.utc_secs == programs@[j]@.start_time.utc_secs && i
                        <= j)));
            assert(tonight_qualifies_mins(programs@[i]@, channel_id@, target, min_duration_mins));
        }
    }
    r
}

} // verus!
