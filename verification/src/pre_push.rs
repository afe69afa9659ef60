//! Sending history in units that a remote host accepts.
//!
//! Hosts cap the size of a single transferable unit. Before a push the
//! commits that are about to be sent are laid out in batches that stay under
//! the limit, and the references of the manifests that a batch needs are sent
//! ahead of it, each in a transfer of its own.

use vstd::prelude::*;
use crate::create_gfs_ref;
use crate::gfs_ref_name;
use crate::rows::texts_of;
use crate::text::{chars_of, joined, string_of};

verus! {

/// A run of commits that is sent as one unit: the places of its first and of
/// its last commit in the list of commits, oldest first.
#[derive(Debug, Clone, Copy, PartialEq, Eq, Structural)]
pub struct Batch {
    pub first: usize,
    pub last: usize,
}

/// The sizes of the commits from `first` to `last`, added up.
pub open spec fn total_size(sizes: Seq<u64>, first: int, last: int) -> int
    decreases last - first + 1,
{
    if last < first {
        0
    } else {
        total_size(sizes, first, last - 1) + sizes[last]
    }
}

/// Whether the batches take the commits apart exactly: each batch is a
/// non-empty run, the first begins with the first commit, each begins where
/// the one before ended, and the last ends with the last commit.
pub open spec fn partitions(batches: Seq<Batch>, count: nat) -> bool {
    &&& batches.len() == 0 <==> count == 0
    &&& batches.len() > 0 ==> batches.first().first == 0 && batches.last().last + 1 == count
    &&& forall|k: int|
        0 <= k < batches.len() ==> (#[trigger] batches[k]).first <= batches[k].last < count
    &&& forall|k: int|
        0 <= k < batches.len() - 1 ==> (#[trigger] batches[k]).last + 1 == batches[k + 1].first
}

/// Whether a batch stays within `limit`, or holds one commit alone, which
/// by itself is over the limit.
pub open spec fn within_limit(batch: Batch, sizes: Seq<u64>, limit: u64) -> bool {
    total_size(sizes, batch.first as int, batch.last as int) <= limit || (batch.first
        == batch.last && sizes[batch.first as int] > limit)
}

/// Whether each batch but the last is full: the commit after it would have
/// taken it over `limit`.
pub open spec fn filled(batches: Seq<Batch>, sizes: Seq<u64>, limit: u64) -> bool {
    forall|k: int|
        0 <= k < batches.len() - 1 ==> total_size(
            sizes,
            (#[trigger] batches[k]).first as int,
            batches[k].last as int,
        ) + sizes[batches[k].last + 1] > limit
}

/// Lays the commits, given by their sizes and oldest first, out in batches.
///
/// A commit joins the batch of the commit before it unless that would take
/// the batch over `limit`; then the batch is closed and the commit opens the
/// next one. So every commit is in exactly one batch, the batches follow one
/// another in the order of the commits, and no batch is over the limit
/// unless it is one commit that is over the limit by itself.
pub fn push_packs(sizes: &Vec<u64>, limit: u64) -> (batches: Vec<Batch>)
    ensures
        partitions(batches@, sizes@.len()),
        forall|k: int|
            0 <= k < batches.len() ==> within_limit(#[trigger] batches[k], sizes@, limit),
        filled(batches@, sizes@, limit),
{
    let mut batches: Vec<Batch> = Vec::new();
    let mut first: usize = 0;
    let mut total: u64 = 0;
    let mut i: usize = 0;
    while i < sizes.len()
        invariant
            first <= i <= sizes.len(),
            total == total_size(sizes@, first as int, i - 1),
            i > first ==> (total <= limit || (i == first + 1 && sizes@[first as int] > limit)),
            batches.len() == 0 <==> first == 0,
            batches.len() > 0 ==> batches@.first().first == 0 && batches@.last().last + 1 == first,
            forall|k: int|
                0 <= k < batches.len() ==> (#[trigger] batches@[k]).first <= batches@[k].last
                    < first,
            forall|k: int|
                0 <= k < batches.len() - 1 ==> (#[trigger] batches@[k]).last + 1 == batches@[k
                    + 1].first,
            forall|k: int|
                0 <= k < batches.len() ==> within_limit(#[trigger] batches@[k], sizes@, limit),
            forall|k: int|
                0 <= k < batches.len() ==> total_size(
                    sizes@,
                    (#[trigger] batches@[k]).first as int,
                    batches@[k].last as int,
                ) + sizes@[batches@[k].last + 1] > limit,
        decreases sizes.len() - i,
    {
        let size = sizes[i];
        if i > first && (total > limit || size > limit - total) {
            batches.push(Batch { first, last: i - 1 });
            first = i;
            total = size;
            assert(total_size(sizes@, i as int, i - 1) == 0);
        } else {
            total = total + size;
        }
        i += 1;
    }
    if i > first {
        batches.push(Batch { first, last: i - 1 });
    }
    batches
}

/// A batch lies wholly before every later one.
proof fn lemma_batches_ascend(batches: Seq<Batch>, count: nat, k: int, j: int)
    requires
        partitions(batches, count),
        0 <= k < j < batches.len(),
    ensures
        batches[k].last < batches[j].first,
    decreases j - k,
{
    if k + 1 < j {
        lemma_batches_ascend(batches, count, k, j - 1);
        assert(batches[j - 1].last + 1 == batches[j].first);
    }
}

/// A commit that lies at or before the end of a batch lies in that batch or
/// in an earlier one.
proof fn lemma_batch_found(batches: Seq<Batch>, count: nat, i: int, k: int)
    requires
        partitions(batches, count),
        0 <= k < batches.len(),
        0 <= i <= batches[k].last,
    ensures
        exists|j: int| 0 <= j <= k && (#[trigger] batches[j]).first <= i <= batches[j].last,
    decreases k,
{
    if i < batches[k].first {
        assert(k > 0);
        assert(batches[k - 1].last + 1 == batches[k].first);
        lemma_batch_found(batches, count, i, k - 1);
    }
}

/// Batches that take the commits apart exactly hold every commit, and none
/// of them twice.
pub proof fn lemma_each_commit_in_one_batch(batches: Seq<Batch>, count: nat, i: int)
    requires
        partitions(batches, count),
        0 <= i < count,
    ensures
        exists|k: int|
            0 <= k < batches.len() && (#[trigger] batches[k]).first <= i <= batches[k].last,
        forall|k: int, j: int|
            0 <= k < batches.len() && 0 <= j < batches.len() && (#[trigger] batches[k]).first <= i
                <= batches[k].last && (#[trigger] batches[j]).first <= i <= batches[j].last ==> k
                == j,
{
    lemma_batch_found(batches, count, i, batches.len() - 1);
    assert forall|k: int, j: int|
        0 <= k < batches.len() && 0 <= j < batches.len() && (#[trigger] batches[k]).first <= i
            <= batches[k].last && (#[trigger] batches[j]).first <= i
            <= batches[j].last implies k == j by {
        if k < j {
            lemma_batches_ascend(batches, count, k, j);
        } else if j < k {
            lemma_batches_ascend(batches, count, j, k);
        }
    }
}

/// The arguments with which one batch is sent: the command, the first commit
/// of the batch and, where the batch holds more than one, its last.
pub open spec fn pack_arguments(commits: Seq<Seq<char>>, batch: Batch) -> Seq<Seq<char>> {
    if batch.first == batch.last {
        seq!["send-pack"@, commits[batch.first as int]]
    } else {
        seq!["send-pack"@, commits[batch.first as int], commits[batch.last as int]]
    }
}

/// Gives the arguments with which the host sends the commits of `batch` as
/// one pack.
pub fn push_as_pack(commits: &Vec<String>, batch: Batch) -> (arguments: Vec<String>)
    requires
        batch.first <= batch.last < commits.len(),
    ensures
        texts_of(arguments@) == pack_arguments(texts_of(commits@), batch),
{
    let mut arguments: Vec<String> = Vec::new();
    arguments.push(String::from_str("send-pack"));
    arguments.push(commits[batch.first].clone());
    if batch.first != batch.last {
        arguments.push(commits[batch.last].clone());
    }
    assert(texts_of(arguments@) =~= pack_arguments(texts_of(commits@), batch));
    arguments
}

/// The pieces between the spaces of a line: one more than there are spaces.
pub open spec fn pieces(line: Seq<char>) -> Seq<Seq<char>>
    decreases line.len(),
{
    if line.len() == 0 {
        seq![Seq::<char>::empty()]
    } else {
        let before = pieces(line.drop_last());
        if line.last() == ' ' {
            before.push(Seq::<char>::empty())
        } else {
            before.update(before.len() - 1, before.last().push(line.last()))
        }
    }
}

/// A line is its pieces with a space between each two, and no piece holds a
/// space.
pub proof fn lemma_pieces(line: Seq<char>)
    ensures
        pieces(line).len() >= 1,
        joined(pieces(line), seq![' ']) == line,
        forall|k: int, i: int|
            0 <= k < pieces(line).len() && 0 <= i < pieces(line)[k].len() ==> #[trigger] pieces(
                line,
            )[k][i] != ' ',
    decreases line.len(),
{
    if line.len() == 0 {
        assert(joined(pieces(line), seq![' ']) =~= line);
    } else {
        let front = line.drop_last();
        lemma_pieces(front);
        let before = pieces(front);
        let now = pieces(line);
        let space = seq![' '];
        if line.last() == ' ' {
            assert(now.drop_last() == before);
            assert(joined(now, space) =~= joined(before, space) + space + Seq::<char>::empty());
            assert(joined(now, space) =~= line);
        } else {
            let grown = before.last().push(line.last());
            if before.len() == 1 {
                assert(joined(before, space) == before[0]);
                assert(joined(now, space) == grown);
                assert(joined(now, space) =~= line);
            } else {
                assert(now.drop_last() == before.drop_last());
                assert(joined(before, space) == joined(before.drop_last(), space) + space
                    + before.last());
                assert(joined(now, space) == joined(before.drop_last(), space) + space + grown);
                assert(joined(now, space) =~= joined(before, space).push(line.last()));
                assert(joined(now, space) =~= line);
            }
        }
    }
}

/// Takes a line apart at its spaces.
pub fn split_at_spaces(line: &str) -> (parts: Vec<String>)
    ensures
        texts_of(parts@) == pieces(line@),
{
    let chars = chars_of(line);
    let mut parts: Vec<String> = Vec::new();
    let mut current: Vec<char> = Vec::new();
    let mut i: usize = 0;
    assert(chars@.take(0) == Seq::<char>::empty());
    assert(texts_of(parts@).push(current@) =~= pieces(chars@.take(0)));
    while i < chars.len()
        invariant
            i <= chars.len(),
            texts_of(parts@).push(current@) == pieces(chars@.take(i as int)),
        decreases chars.len() - i,
    {
        proof {
            let upto = chars@.take(i + 1);
            assert(upto.drop_last() == chars@.take(i as int));
            assert(upto.last() == chars@[i as int]);
        }
        let ghost before = texts_of(parts@).push(current@);
        if chars[i] == ' ' {
            let ghost closed = texts_of(parts@);
            parts.push(string_of(&current));
            current = Vec::new();
            assert(texts_of(parts@) =~= before);
            assert(texts_of(parts@).push(current@) =~= before.push(Seq::<char>::empty()));
        } else {
            current.push(chars[i]);
            assert(texts_of(parts@).push(current@) =~= before.update(
                before.len() - 1,
                before.last().push(chars@[i as int]),
            ));
        }
        i += 1;
    }
    assert(chars@.take(chars.len() as int) == chars@);
    let ghost before = texts_of(parts@).push(current@);
    parts.push(string_of(&current));
    assert(texts_of(parts@) =~= before);
    parts
}

/// One line of what the host hands to the hook before a push: a reference
/// that is pushed, with the commit it names on this side and on the other.
#[derive(Debug, Clone, PartialEq, Eq)]
pub struct PushUpdate {
    pub local_ref: String,
    pub local_sha: String,
    pub remote_ref: String,
    pub remote_sha: String,
}

impl PushUpdate {
    /// The four texts of the line, in their order.
    pub open spec fn fields(self) -> Seq<Seq<char>> {
        seq![self.local_ref@, self.local_sha@, self.remote_ref@, self.remote_sha@]
    }

    /// The arguments with which the host lists the commits that the push
    /// brings: those that the commit on this side reaches and the commit on
    /// the other side does not.
    pub open spec fn range_arguments(self) -> Seq<Seq<char>> {
        seq!["rev-list"@, self.local_sha@, "--not"@, self.remote_sha@]
    }

    /// The arguments with which the host lists the commits that the push
    /// brings, the oldest first.
    pub open spec fn oldest_first_arguments(self) -> Seq<Seq<char>> {
        seq!["rev-list"@, "--reverse"@, self.local_sha@, "--not"@, self.remote_sha@]
    }

    /// Gives the arguments with which the host lists the commits that the
    /// push brings, the oldest first: the order in which they are laid out
    /// in batches.
    pub fn rev_list_oldest_first(&self) -> (arguments: Vec<String>)
        ensures
            texts_of(arguments@) == self.oldest_first_arguments(),
    {
        let mut arguments: Vec<String> = Vec::new();
        arguments.push(String::from_str("rev-list"));
        arguments.push(String::from_str("--reverse"));
        arguments.push(self.local_sha.clone());
        arguments.push(String::from_str("--not"));
        arguments.push(self.remote_sha.clone());
        assert(texts_of(arguments@) =~= self.oldest_first_arguments());
        arguments
    }

    /// Gives the arguments with which the host lists the commits that the
    /// push brings.
    pub fn rev_list(&self) -> (arguments: Vec<String>)
        ensures
            texts_of(arguments@) == self.range_arguments(),
    {
        let mut arguments: Vec<String> = Vec::new();
        arguments.push(String::from_str("rev-list"));
        arguments.push(self.local_sha.clone());
        arguments.push(String::from_str("--not"));
        arguments.push(self.remote_sha.clone());
        assert(texts_of(arguments@) =~= self.range_arguments());
        arguments
    }
}

/// Reads one line of what the host hands to the hook: four texts with a
/// space between each two. A line with more or fewer pieces is none.
pub fn pre_push(line: &str) -> (update: Option<PushUpdate>)
    ensures
        update is Some <==> pieces(line@).len() == 4,
        update matches Some(u) ==> u.fields() == pieces(line@),
{
    let mut parts = split_at_spaces(line);
    if parts.len() != 4 {
        return None;
    }
    let ghost all = texts_of(parts@);
    let remote_sha = parts.remove(3);
    let remote_ref = parts.remove(2);
    let local_sha = parts.remove(1);
    let local_ref = parts.remove(0);
    let update = PushUpdate { local_ref, local_sha, remote_ref, remote_sha };
    assert(update.fields() =~= all);
    Some(update)
}

/// What the changes of a commit that is about to be sent are taken against,
/// to find the pointers that the commit brought.
#[derive(Debug, Clone, PartialEq, Eq)]
pub enum PointerBase {
    /// The commit has no parent: every file it holds is one it brought.
    Nothing,
    /// The commit has one parent: it brought what differs from that parent.
    Parent(String),
    /// The commit is a merge: it brought no pointer of its own, and none is
    /// read.
    NoneRead,
}

/// Tells from the parents of a commit what its changes are taken against to
/// find the pointers it brought. A merge brings no pointer of its own: the
/// commits it merges brought them.
pub fn pointer_base(parents: &Vec<String>) -> (base: PointerBase)
    ensures
        parents@.len() == 0 ==> base is Nothing,
        parents@.len() == 1 ==> (base matches PointerBase::Parent(p) && p@ == parents@[0]@),
        parents@.len() > 1 ==> base is NoneRead,
{
    if parents.len() == 0 {
        PointerBase::Nothing
    } else if parents.len() == 1 {
        PointerBase::Parent(parents[0].clone())
    } else {
        PointerBase::NoneRead
    }
}

/// A commit that is about to be sent: its id, its size as the object store
/// reports it, and the hashes of the manifests that its pointers name.
#[derive(Debug, Clone, PartialEq, Eq)]
pub struct OutgoingCommit {
    pub id: String,
    pub size: u64,
    pub manifests: Vec<String>,
}

/// One step of a push: the references that are sent first, each in a
/// transfer of its own, and the batch of commits that is sent after them.
#[derive(Debug, Clone, PartialEq, Eq)]
pub struct Stage {
    pub references: Vec<String>,
    pub batch: Batch,
}

/// The sizes of the commits, in their order.
pub open spec fn sizes_of(commits: Seq<OutgoingCommit>) -> Seq<u64> {
    commits.map_values(|c: OutgoingCommit| c.size)
}

/// The names of the references to the given manifests, in their order.
pub open spec fn reference_names(manifests: Seq<Seq<char>>) -> Seq<Seq<char>> {
    manifests.map_values(|hash: Seq<char>| gfs_ref_name(hash))
}

/// The names of the references that the commits from `first` to `last`
/// need, commit by commit.
pub open spec fn references_needed(commits: Seq<OutgoingCommit>, first: int, last: int) -> Seq<
    Seq<char>,
>
    decreases last - first + 1,
{
    if last < first {
        Seq::empty()
    } else {
        references_needed(commits, first, last - 1) + reference_names(
            texts_of(commits[last].manifests@),
        )
    }
}

/// Every reference that a commit of a run needs is among those needed by
/// the run.
pub proof fn lemma_references_needed(
    commits: Seq<OutgoingCommit>,
    first: int,
    last: int,
    at: int,
    which: int,
)
    requires
        0 <= first <= at <= last < commits.len(),
        0 <= which < commits[at].manifests@.len(),
    ensures
        references_needed(commits, first, last).contains(
            gfs_ref_name(commits[at].manifests@[which]@),
        ),
    decreases last - first + 1,
{
    let names = reference_names(texts_of(commits[last].manifests@));
    let before = references_needed(commits, first, last - 1);
    if at == last {
        assert(names[which] == gfs_ref_name(commits[at].manifests@[which]@));
        assert(references_needed(commits, first, last)[before.len() + which] == names[which]);
    } else {
        lemma_references_needed(commits, first, last - 1, at, which);
        let k = choose|k: int|
            0 <= k < before.len() && before[k] == gfs_ref_name(commits[at].manifests@[which]@);
        assert(references_needed(commits, first, last)[k] == before[k]);
    }
}

/// Lays a push out in stages. The commits, oldest first, are taken apart in
/// batches as `push_packs` does it; ahead of each batch go the references to
/// the manifests that its commits name, one reference to a transfer.
pub fn plan_push(commits: &Vec<OutgoingCommit>, limit: u64) -> (stages: Vec<Stage>)
    ensures
        partitions(stages@.map_values(|s: Stage| s.batch), commits@.len()),
        forall|k: int|
            0 <= k < stages.len() ==> within_limit(
                (#[trigger] stages@[k]).batch,
                sizes_of(commits@),
                limit,
            ),
        filled(stages@.map_values(|s: Stage| s.batch), sizes_of(commits@), limit),
        forall|k: int|
            0 <= k < stages.len() ==> texts_of((#[trigger] stages@[k]).references@)
                == references_needed(
                commits@,
                stages@[k].batch.first as int,
                stages@[k].batch.last as int,
            ),
{
    let mut sizes: Vec<u64> = Vec::new();
    let mut i: usize = 0;
    while i < commits.len()
        invariant
            i <= commits.len(),
            sizes@ == sizes_of(commits@).take(i as int),
        decreases commits.len() - i,
    {
        sizes.push(commits[i].size);
        assert(sizes_of(commits@).take(i + 1) == sizes_of(commits@).take(i as int).push(
            commits@[i as int].size,
        ));
        i += 1;
    }
    assert(sizes_of(commits@).take(commits.len() as int) == sizes_of(commits@));
    let batches = push_packs(&sizes, limit);
    let mut stages: Vec<Stage> = Vec::new();
    let mut k: usize = 0;
    while k < batches.len()
        invariant
            k <= batches.len(),
            partitions(batches@, commits@.len()),
            stages@.map_values(|s: Stage| s.batch) == batches@.take(k as int),
            forall|j: int|
                0 <= j < stages.len() ==> texts_of((#[trigger] stages@[j]).references@)
                    == references_needed(
                    commits@,
                    stages@[j].batch.first as int,
                    stages@[j].batch.last as int,
                ),
        decreases batches.len() - k,
    {
        let batch = batches[k];
        let references = references_for(commits, batch);
        let ghost before = stages@.map_values(|s: Stage| s.batch);
        stages.push(Stage { references, batch });
        assert(stages@.map_values(|s: Stage| s.batch) =~= before.push(batch));
        assert(batches@.take(k + 1) == batches@.take(k as int).push(batch));
        k += 1;
    }
    assert(batches@.take(batches.len() as int) == batches@);
    assert forall|k: int| 0 <= k < stages.len() implies within_limit(
        (#[trigger] stages@[k]).batch,
        sizes_of(commits@),
        limit,
    ) by {
        assert(stages@[k].batch == batches@[k]);
    }
    stages
}

/// The names of the references that the commits of `batch` need.
fn references_for(commits: &Vec<OutgoingCommit>, batch: Batch) -> (names: Vec<String>)
    requires
        batch.first <= batch.last < commits.len(),
    ensures
        texts_of(names@) == references_needed(commits@, batch.first as int, batch.last as int),
{
    let mut names: Vec<String> = Vec::new();
    let mut at: usize = batch.first;
    assert(texts_of(names@) =~= references_needed(commits@, batch.first as int, at - 1));
    while at <= batch.last
        invariant
            batch.first <= at <= batch.last + 1,
            batch.last < commits.len(),
            texts_of(names@) == references_needed(commits@, batch.first as int, at - 1),
        decreases batch.last + 1 - at,
    {
        let manifests = &commits[at].manifests;
        let ghost before = texts_of(names@);
        let ghost wanted = reference_names(texts_of(manifests@));
        let mut m: usize = 0;
        while m < manifests.len()
            invariant
                m <= manifests.len(),
                wanted == reference_names(texts_of(manifests@)),
                texts_of(names@) == before + wanted.take(m as int),
            decreases manifests.len() - m,
        {
            let ghost so_far = texts_of(names@);
            names.push(create_gfs_ref(manifests[m].as_str()));
            assert(texts_of(names@) =~= so_far.push(wanted[m as int]));
            assert(wanted.take(m + 1) == wanted.take(m as int).push(wanted[m as int]));
            m += 1;
        }
        assert(wanted.take(manifests.len() as int) == wanted);
        at += 1;
    }
    names
}

} // verus!
