//! Folding a commit's manifests into reachable history, after the commit.
//!
//! The references under `refs/gfs` are no ancestors of any branch, so a push
//! would not carry what they protect. After each commit the manifests that
//! the commit touched are grafted into one synthetic merge, published under
//! `refs/gfs` too, while the branch ends up exactly where the commit left it.
//!
//! The repository is not in reach of this module. It decides: each call of
//! [`PostCommit::git_post_commit`] takes what the repository answered to the
//! last request and returns the next request. The caller carries the
//! requests out, in order, and hands back each answer.

use vstd::prelude::*;
use crate::create_gfs_ref;
use crate::error::GfsError;
use crate::gfs_ref_name;
use crate::pointer::{parsed, Pointer};
use crate::rows::{bytes_of, texts_of};
use crate::track::{get_touched_paths, touched_paths, AttributeMatch, TreeChange};

verus! {

/// How far the fold of one commit has come.
#[derive(Debug, Clone, Copy, PartialEq, Eq, Structural)]
pub enum FoldPhase {
    /// Nothing has been asked for yet; the head commit is awaited.
    Start,
    /// A reference to the commit is being published.
    Anchoring,
    /// The branch tip is being moved back to the parent.
    Rewinding,
    /// The tip is at the parent; the changes of the commit are awaited.
    Discovering,
    /// The tip is at the parent; the pointers of the tracked paths are awaited.
    Reading,
    /// The tip is at the parent; the synthetic merge is awaited.
    Folding,
    /// The tip is at the parent; the reference to the merge is being published.
    Publishing,
    /// The branch tip is being moved forward to the commit again.
    Restoring,
    /// Nothing more will be asked for.
    Finished,
}

/// What the repository answered to the last request.
#[derive(Debug, PartialEq, Eq)]
pub enum FoldEvent {
    /// The commit at the head, with its parents. It opens the fold.
    Head { id: String, parents: Vec<String> },
    /// The reference was published, or the tip was moved.
    Done,
    /// The changes from the parent's tree to the commit's, and the lines of
    /// the attribute file.
    Changes { changes: Vec<TreeChange>, matches: Vec<AttributeMatch> },
    /// The contents of the files asked for, in the order asked.
    Pointers(Vec<String>),
    /// The synthetic merge was made and has this id.
    Merged(String),
    /// The request could not be carried out.
    Failed(String),
}

/// What the repository is asked to do next.
#[derive(Debug, PartialEq, Eq)]
pub enum FoldAction {
    /// Publish the reference `name` to the object `target`; a reference that
    /// is already there is no failure.
    PublishRef { name: String, target: String },
    /// Move the tip of the current branch to `target`.
    MoveTip { target: String },
    /// Hand over the changes from the tree of `parent` to that of `child`,
    /// and the lines of the attribute file.
    Diff { parent: String, child: String },
    /// Hand over what the files at `paths` hold in the tree of `commit`.
    ReadPointers { commit: String, paths: Vec<Vec<u8>> },
    /// Make a merge with the given parents.
    Merge { parents: Vec<String> },
    /// Stop, with the outcome of the fold.
    Stop(Result<(), GfsError>),
}

/// Folds the manifests of the commit that was just made.
pub struct PostCommit {
    phase: FoldPhase,
    child: String,
    parent: String,
    asked: usize,
    failure: Option<GfsError>,
}

/// The diagnostic text for an answer that does not fit the request.
pub open spec fn out_of_turn() -> Seq<char> {
    "answer out of turn"@
}

/// The first of `texts` that is no pointer, if there is one.
pub open spec fn first_unreadable(texts: Seq<Seq<char>>) -> Option<int> {
    if exists|i: int| 0 <= i < texts.len() && parsed(#[trigger] texts[i]) is Err {
        Some(
            choose|i: int|
                0 <= i < texts.len() && parsed(#[trigger] texts[i]) is Err && forall|k: int|
                    0 <= k < i ==> parsed(#[trigger] texts[k]) is Ok,
        )
    } else {
        None
    }
}

/// The hashes that `texts` hold as pointers, in their order.
pub open spec fn hashes_of(texts: Seq<Seq<char>>) -> Seq<Seq<char>> {
    Seq::new(texts.len(), |i: int| parsed(texts[i])->Ok_0)
}

impl FoldAction {
    /// Whether the action publishes the reference `name` to `target`.
    pub open spec fn publishes(self, name: Seq<char>, target: Seq<char>) -> bool {
        self matches FoldAction::PublishRef { name: n, target: t } && n@ == name && t@ == target
    }

    /// Whether the action moves the branch tip to `target`.
    pub open spec fn moves_tip(self, target: Seq<char>) -> bool {
        self matches FoldAction::MoveTip { target: t } && t@ == target
    }

    /// Whether the action asks for the changes from `parent` to `child`.
    pub open spec fn diffs(self, parent: Seq<char>, child: Seq<char>) -> bool {
        self matches FoldAction::Diff { parent: p, child: c } && p@ == parent && c@ == child
    }

    /// Whether the action asks for the files at `paths` in `commit`.
    pub open spec fn reads(self, commit: Seq<char>, paths: Seq<Seq<u8>>) -> bool {
        self matches FoldAction::ReadPointers { commit: c, paths: p } && c@ == commit && bytes_of(
            p@,
        ) == paths
    }

    /// Whether the action asks for a merge with the given parents.
    pub open spec fn merges(self, parents: Seq<Seq<char>>) -> bool {
        self matches FoldAction::Merge { parents: p } && texts_of(p@) == parents
    }

    /// Whether the action stops the fold without a failure.
    pub open spec fn stops_well(self) -> bool {
        self matches FoldAction::Stop(Ok(_))
    }

    /// Whether the action stops the fold with a failure of the plumbing that
    /// carries `diagnostic`.
    pub open spec fn stops_on_plumbing(self, diagnostic: Seq<char>) -> bool {
        self matches FoldAction::Stop(Err(GfsError::PlumbingError(d))) && d@ == diagnostic
    }

    /// Whether the action stops the fold with a failure that arose while the
    /// tip was moved away, and that carries `diagnostic`.
    pub open spec fn stops_on_risk(self, diagnostic: Seq<char>) -> bool {
        self matches FoldAction::Stop(Err(GfsError::HistoryCorruptionRisk(d))) && d@
            == diagnostic
    }
}

impl FoldEvent {
    /// The diagnostic text of the failure that is in order when the event
    /// ends the work: its own for a failed request, else that of an answer
    /// out of turn.
    pub open spec fn diagnostic(self) -> Seq<char> {
        match self {
            FoldEvent::Failed(text) => text@,
            _ => out_of_turn(),
        }
    }
}

impl PostCommit {
    /// How far the fold has come.
    pub closed spec fn phase(self) -> FoldPhase {
        self.phase
    }

    /// The commit that is folded; meaningful once the head has been seen.
    pub closed spec fn child(self) -> Seq<char> {
        self.child@
    }

    /// The only parent of that commit.
    pub closed spec fn parent(self) -> Seq<char> {
        self.parent@
    }

    /// The number of pointers that were asked for.
    pub closed spec fn asked(self) -> nat {
        self.asked as nat
    }

    /// The failure that is surfaced once the tip is restored, if there is one.
    pub closed spec fn failure(self) -> Option<GfsError> {
        self.failure
    }

    /// Whether the branch tip stands at the parent and its restoring has not
    /// been asked for yet.
    pub open spec fn tip_away(self) -> bool {
        self.phase() is Discovering || self.phase() is Reading || self.phase() is Folding
            || self.phase() is Publishing
    }

    /// A fold that has not begun.
    pub fn new() -> (fold: PostCommit)
        ensures
            fold.phase() is Start,
            fold.failure() is None,
    {
        PostCommit {
            phase: FoldPhase::Start,
            child: String::new(),
            parent: String::new(),
            asked: 0,
            failure: None,
        }
    }

    /// How far the fold has come.
    pub fn current_phase(&self) -> (phase: FoldPhase)
        ensures
            phase == self.phase(),
    {
        self.phase
    }

    /// Ends the work on an answer that cannot be worked with. Where the tip
    /// stands at the parent it is first moved forward again, and the failure
    /// is kept until that is done.
    fn give_up(&mut self, diagnostic: String) -> (action: FoldAction)
        requires
            !(old(self).phase() is Restoring),
        ensures
            final(self).child() == old(self).child(),
            final(self).parent() == old(self).parent(),
            old(self).tip_away() ==> final(self).phase() is Restoring && action.moves_tip(
                old(self).child(),
            ) && (final(self).failure() matches Some(GfsError::HistoryCorruptionRisk(d)) && d@
                == diagnostic@),
            !old(self).tip_away() ==> final(self).phase() is Finished
                && action.stops_on_plumbing(diagnostic@),
    {
        match self.phase {
            FoldPhase::Discovering
            | FoldPhase::Reading
            | FoldPhase::Folding
            | FoldPhase::Publishing => {
                self.phase = FoldPhase::Restoring;
                self.failure = Some(GfsError::HistoryCorruptionRisk(diagnostic));
                FoldAction::MoveTip { target: self.child.clone() }
            },
            _ => {
                self.phase = FoldPhase::Finished;
                FoldAction::Stop(Err(GfsError::PlumbingError(diagnostic)))
            },
        }
    }

    /// Takes the answer to the last request and returns the next request.
    ///
    /// A commit without a parent, or with more than one, is left alone: the
    /// fold stops at once and asks for nothing. For a commit with one parent
    /// the requests are, in order: publish a reference to the commit; move
    /// the tip back to the parent; hand over the changes; hand over the
    /// pointers of the tracked paths among them; merge the manifests that the
    /// pointers name with the commit; publish a reference to the merge; move
    /// the tip forward to the commit again; stop.
    ///
    /// Once the tip stands at the parent, whatever fails or comes out of turn
    /// leads to the request to move the tip forward again, and the failure is
    /// reported only after that.
    pub fn git_post_commit(&mut self, event: FoldEvent) -> (action: FoldAction)
        ensures
            steps_to(*old(self), event, *final(self), action),
    {
        match self.phase {
            FoldPhase::Start => match event {
                FoldEvent::Head { id, parents } => {
                    let mut parents = parents;
                    if parents.len() == 1 {
                        let parent = parents.remove(0);
                        let name = create_gfs_ref(id.as_str());
                        let target = id.clone();
                        self.child = id;
                        self.parent = parent;
                        self.failure = None;
                        self.phase = FoldPhase::Anchoring;
                        FoldAction::PublishRef { name, target }
                    } else {
                        self.phase = FoldPhase::Finished;
                        FoldAction::Stop(Ok(()))
                    }
                },
                other => {
                    let diagnostic = diagnostic_of(other);
                    self.give_up(diagnostic)
                },
            },
            FoldPhase::Anchoring => match event {
                FoldEvent::Done => {
                    self.phase = FoldPhase::Rewinding;
                    FoldAction::MoveTip { target: self.parent.clone() }
                },
                other => {
                    let diagnostic = diagnostic_of(other);
                    self.give_up(diagnostic)
                },
            },
            FoldPhase::Rewinding => match event {
                FoldEvent::Done => {
                    self.phase = FoldPhase::Discovering;
                    FoldAction::Diff { parent: self.parent.clone(), child: self.child.clone() }
                },
                other => {
                    let diagnostic = diagnostic_of(other);
                    self.give_up(diagnostic)
                },
            },
            FoldPhase::Discovering => match event {
                FoldEvent::Changes { changes, matches } => {
                    let paths = get_touched_paths(&changes, &matches);
                    self.asked = paths.len();
                    self.phase = FoldPhase::Reading;
                    FoldAction::ReadPointers { commit: self.child.clone(), paths }
                },
                other => {
                    let diagnostic = diagnostic_of(other);
                    self.give_up(diagnostic)
                },
            },
            FoldPhase::Reading => match event {
                FoldEvent::Pointers(texts) => {
                    if texts.len() != self.asked {
                        self.give_up(String::from_str("answer out of turn"))
                    } else {
                        match get_tree_references(&texts) {
                            Ok(hashes) => {
                                let mut parents = hashes;
                                let ghost before = texts_of(parents@);
                                parents.push(self.child.clone());
                                assert(texts_of(parents@) =~= before.push(self.child@));
                                self.phase = FoldPhase::Folding;
                                FoldAction::Merge { parents }
                            },
                            Err(e) => self.give_up(e.message()),
                        }
                    }
                },
                other => {
                    let diagnostic = diagnostic_of(other);
                    self.give_up(diagnostic)
                },
            },
            FoldPhase::Folding => match event {
                FoldEvent::Merged(id) => {
                    let name = create_gfs_ref(id.as_str());
                    self.phase = FoldPhase::Publishing;
                    FoldAction::PublishRef { name, target: id }
                },
                other => {
                    let diagnostic = diagnostic_of(other);
                    self.give_up(diagnostic)
                },
            },
            FoldPhase::Publishing => match event {
                FoldEvent::Done => {
                    self.phase = FoldPhase::Restoring;
                    FoldAction::MoveTip { target: self.child.clone() }
                },
                other => {
                    let diagnostic = diagnostic_of(other);
                    self.give_up(diagnostic)
                },
            },
            FoldPhase::Restoring => {
                self.phase = FoldPhase::Finished;
                match event {
                    FoldEvent::Done => match self.failure.take() {
                        None => FoldAction::Stop(Ok(())),
                        Some(e) => FoldAction::Stop(Err(e)),
                    },
                    other => FoldAction::Stop(
                        Err(GfsError::HistoryCorruptionRisk(diagnostic_of(other))),
                    ),
                }
            },
            FoldPhase::Finished => FoldAction::Stop(
                Err(GfsError::PlumbingError(String::from_str("answer out of turn"))),
            ),
        }
    }
}

/// Whether the fold `pre`, handed the answer `event`, becomes the fold `post`
/// and asks for `action`: one step of a fold.
pub open spec fn steps_to(
    pre: PostCommit,
    event: FoldEvent,
    post: PostCommit,
    action: FoldAction,
) -> bool {
    // the commit and its parent are fixed once the head has been seen
    &&& !(pre.phase() is Start) ==> post.child() == pre.child()
        && post.parent() == pre.parent()
    // while the tip stands at the parent the fold does not stop: it goes on, or
    // it asks for the tip to be moved forward again
    &&& pre.tip_away() ==> post.tip_away() || (post.phase() is Restoring
        && action.moves_tip(pre.child()))
    &&& action is Stop <==> post.phase() is Finished
    // the steps, one by one
    &&& pre.phase() is Start ==> match event {
        FoldEvent::Head { id, parents } => if parents.len() == 1 {
            &&& post.phase() is Anchoring
            &&& post.child() == id@
            &&& post.parent() == parents[0]@
            &&& post.failure() is None
            &&& action.publishes(gfs_ref_name(id@), id@)
        } else {
            action.stops_well()
        },
        _ => action.stops_on_plumbing(event.diagnostic()),
    }
    &&& pre.phase() is Anchoring ==> match event {
        FoldEvent::Done => post.phase() is Rewinding && action.moves_tip(
            pre.parent(),
        ) && post.failure() == pre.failure(),
        _ => action.stops_on_plumbing(event.diagnostic()),
    }
    &&& pre.phase() is Rewinding ==> match event {
        FoldEvent::Done => post.phase() is Discovering && action.diffs(
            pre.parent(),
            pre.child(),
        ) && post.failure() == pre.failure(),
        _ => action.stops_on_plumbing(event.diagnostic()),
    }
    &&& pre.phase() is Discovering ==> match event {
        FoldEvent::Changes { changes, matches } => {
            &&& post.phase() is Reading
            &&& post.failure() == pre.failure()
            &&& action.reads(pre.child(), touched_paths(changes@, matches@))
            &&& post.asked() == touched_paths(changes@, matches@).len()
        },
        _ => post.phase() is Restoring && (post.failure() matches Some(
            GfsError::HistoryCorruptionRisk(d),
        ) && d@ == event.diagnostic()),
    }
    &&& pre.phase() is Reading ==> match event {
        FoldEvent::Pointers(texts) => if texts.len() != pre.asked() {
            post.phase() is Restoring && (post.failure() matches Some(
                GfsError::HistoryCorruptionRisk(d),
            ) && d@ == out_of_turn())
        } else {
            match first_unreadable(texts_of(texts@)) {
                None => {
                    &&& post.phase() is Folding
                    &&& post.failure() == pre.failure()
                    &&& action.merges(
                        hashes_of(texts_of(texts@)).push(pre.child()),
                    )
                },
                Some(i) => post.phase() is Restoring && (
                post.failure() matches Some(GfsError::HistoryCorruptionRisk(d))
                    && d@ == parsed(texts_of(texts@)[i])->Err_0.described()),
            }
        },
        _ => post.phase() is Restoring && (post.failure() matches Some(
            GfsError::HistoryCorruptionRisk(d),
        ) && d@ == event.diagnostic()),
    }
    &&& pre.phase() is Folding ==> match event {
        FoldEvent::Merged(id) => post.phase() is Publishing && action.publishes(
            gfs_ref_name(id@),
            id@,
        ) && post.failure() == pre.failure(),
        _ => post.phase() is Restoring && (post.failure() matches Some(
            GfsError::HistoryCorruptionRisk(d),
        ) && d@ == event.diagnostic()),
    }
    &&& pre.phase() is Publishing ==> match event {
        FoldEvent::Done => post.phase() is Restoring && post.failure()
            == pre.failure(),
        _ => post.phase() is Restoring && (post.failure() matches Some(
            GfsError::HistoryCorruptionRisk(d),
        ) && d@ == event.diagnostic()),
    }
    &&& pre.phase() is Restoring ==> match event {
        FoldEvent::Done => match pre.failure() {
            None => action.stops_well(),
            Some(e) => action == FoldAction::Stop(Err(e)),
        },
        _ => action.stops_on_risk(event.diagnostic()),
    }
    &&& pre.phase() is Finished ==> action.stops_on_plumbing(out_of_turn())
}

/// Whether the requests are those of a fold that is handed the answers one
/// after the other from its beginning on: there is a fold for every step,
/// the first one not begun, each the outcome of the step before.
pub open spec fn is_run(answers: Seq<FoldEvent>, requests: Seq<FoldAction>) -> bool {
    requests.len() <= answers.len() && exists|folds: Seq<PostCommit>|
        {
            &&& #[trigger] folds.len() == requests.len() + 1
            &&& folds[0].phase() is Start
            &&& folds[0].failure() is None
            &&& forall|k: int|
                0 <= k < requests.len() ==> steps_to(
                    #[trigger] folds[k],
                    answers[k],
                    folds[k + 1],
                    requests[k],
                )
        }
}

/// Where the tip of the branch stands when the first `upto` requests have
/// been answered, if it stood at `start` before: at the target of the last
/// request to move it that was answered as done. The request at place `k`
/// is answered by the answer at place `k + 1`.
pub open spec fn tip_after(
    start: Seq<char>,
    requests: Seq<FoldAction>,
    answers: Seq<FoldEvent>,
    upto: int,
) -> Seq<char>
    decreases upto,
{
    if upto <= 0 {
        start
    } else {
        match requests[upto - 1] {
            FoldAction::MoveTip { target } => if answers[upto] is Done {
                target@
            } else {
                tip_after(start, requests, answers, upto - 1)
            },
            _ => tip_after(start, requests, answers, upto - 1),
        }
    }
}

/// The commit that a fold is opened with, if the first answer is the head.
pub open spec fn opened_with(answers: Seq<FoldEvent>) -> Seq<char> {
    if answers.len() > 0 {
        match answers[0] {
            FoldEvent::Head { id, parents } => id@,
            _ => Seq::empty(),
        }
    } else {
        Seq::empty()
    }
}

/// Runs a fold over the answers at hand: they are handed to a new fold one
/// after the other, until the fold stops or the answers run out. Returns the
/// requests that the fold made, the first one on the first answer.
///
/// However the answers turn out, a fold that stops leaves the tip of the
/// branch at the commit it was opened with, where a request to move the tip
/// is carried out exactly if it is answered as done. The one exception is
/// that the last request before the stop was to move the tip back to the
/// commit, and that it was not answered as done.
pub fn fold_with(answers: Vec<FoldEvent>) -> (requests: Vec<FoldAction>)
    ensures
        is_run(answers@, requests@),
        answers@.len() > 0 ==> match answers@[0] {
            FoldEvent::Head { id, parents } => if parents@.len() == 1 {
                requests@[0].publishes(gfs_ref_name(id@), id@)
            } else {
                requests@.len() == 1 && requests@[0].stops_well()
            },
            _ => requests@.len() == 1 && requests@[0].stops_on_plumbing(
                answers@[0].diagnostic(),
            ),
        },
        requests.len() <= answers.len(),
        answers.len() > 0 ==> requests.len() > 0,
        forall|k: int| 0 <= k < requests.len() - 1 ==> !((#[trigger] requests@[k]) is Stop),
        requests.len() < answers.len() ==> requests@.last() is Stop,
        requests.len() > 0 && requests@.last() is Stop ==> {
            let last = requests.len() - 1;
            ||| tip_after(opened_with(answers@), requests@, answers@, last) == opened_with(
                answers@,
            )
            ||| (last >= 1 && requests@[last - 1].moves_tip(opened_with(answers@)) && !(
            answers@[last] is Done))
        },
        requests.len() > 0 && requests@.last().stops_well() ==> tip_after(
            opened_with(answers@),
            requests@,
            answers@,
            requests.len() - 1,
        ) == opened_with(answers@),
{
    let ghost all = answers@;
    let ghost child = opened_with(all);
    let mut answers = answers;
    let mut requests: Vec<FoldAction> = Vec::new();
    let mut fold = PostCommit::new();
    let ghost mut folds: Seq<PostCommit> = seq![fold];
    let mut i: usize = 0;
    while i < answers.len()
        invariant_except_break
            forall|k: int| 0 <= k < i ==> !((#[trigger] requests@[k]) is Stop),
            !(fold.phase() is Finished),
            fold.phase() is Start <==> i == 0,
            i > 0 ==> fold.child() == child,
            // where the tip stands once the answer at hand has been taken
            i > 0 ==> (tip_after(child, requests@, all, i - 1) == if fold.tip_away()
                || fold.phase() is Restoring {
                fold.parent()
            } else {
                child
            }),
            fold.phase() is Rewinding ==> i > 0 && requests@[i - 1].moves_tip(fold.parent()),
            fold.phase() is Restoring ==> i > 0 && requests@[i - 1].moves_tip(child),
            (fold.phase() is Anchoring || fold.tip_away()) ==> i > 0 && !(requests@[i - 1]
                is MoveTip),
        invariant
            i <= answers.len(),
            answers.len() == all.len(),
            requests.len() == i,
            child == opened_with(all),
            folds.len() == i + 1,
            folds[0].phase() is Start,
            folds[0].failure() is None,
            folds[i as int] == fold,
            forall|k: int|
                0 <= k < i ==> steps_to(#[trigger] folds[k], all[k], folds[k + 1], requests@[k]),
            i > 0 ==> match all[0] {
                FoldEvent::Head { id, parents } => if parents@.len() == 1 {
                    requests@[0].publishes(gfs_ref_name(id@), id@)
                } else {
                    requests@[0].stops_well()
                },
                _ => requests@[0].stops_on_plumbing(all[0].diagnostic()),
            },
            forall|k: int| i <= k < answers.len() ==> answers@[k] == all[k],
        ensures
            is_run(all, requests@),
            all.len() > 0 ==> requests.len() > 0 && match all[0] {
                FoldEvent::Head { id, parents } => if parents@.len() == 1 {
                    requests@[0].publishes(gfs_ref_name(id@), id@)
                } else {
                    requests@.len() == 1 && requests@[0].stops_well()
                },
                _ => requests@.len() == 1 && requests@[0].stops_on_plumbing(
                    all[0].diagnostic(),
                ),
            },
            requests.len() <= all.len(),
            all.len() > 0 ==> requests.len() > 0,
            forall|k: int| 0 <= k < requests.len() - 1 ==> !((#[trigger] requests@[k]) is Stop),
            requests.len() < all.len() ==> requests@.last() is Stop,
            requests.len() > 0 && requests@.last() is Stop ==> {
                let last = requests.len() - 1;
                ||| tip_after(child, requests@, all, last) == child
                ||| (last >= 1 && requests@[last - 1].moves_tip(child) && !(all[last] is Done))
            },
            requests.len() > 0 && requests@.last().stops_well() ==> tip_after(
                child,
                requests@,
                all,
                requests.len() - 1,
            ) == child,
        decreases answers.len() - i,
    {
        let mut event = FoldEvent::Done;
        core::mem::swap(&mut event, &mut answers[i]);
        let ghost before = fold;
        let ghost asked = requests@;
        let request = fold.git_post_commit(event);
        let stops = match &request {
            FoldAction::Stop(_) => true,
            _ => false,
        };
        requests.push(request);
        proof {
            let ghost earlier = folds;
            folds = folds.push(fold);
            assert forall|k: int| 0 <= k <= i implies steps_to(
                #[trigger] folds[k],
                all[k],
                folds[k + 1],
                requests@[k],
            ) by {
                if k < i {
                    assert(folds[k] == earlier[k]);
                    assert(folds[k + 1] == earlier[k + 1]);
                    assert(requests@[k] == asked[k]);
                }
            }
            // the requests so far are answered as they were
            assert forall|k: int| 0 <= k <= i implies tip_after(child, requests@, all, k)
                == tip_after(child, asked, all, k) by {
                lemma_tip_after_front(child, asked, requests@, all, k);
            }
            if i > 0 {
                assert(requests@[i - 1] == asked[i - 1]);
            }
        }
        i += 1;
        if stops {
            break ;
        }
    }
    requests
}

/// Where the tip stands after some requests does not depend on the
/// requests behind them.
proof fn lemma_tip_after_front(
    start: Seq<char>,
    shorter: Seq<FoldAction>,
    longer: Seq<FoldAction>,
    answers: Seq<FoldEvent>,
    upto: int,
)
    requires
        upto <= shorter.len() <= longer.len(),
        forall|k: int| 0 <= k < shorter.len() ==> shorter[k] == longer[k],
    ensures
        tip_after(start, longer, answers, upto) == tip_after(start, shorter, answers, upto),
    decreases upto,
{
    if upto > 0 {
        lemma_tip_after_front(start, shorter, longer, answers, upto - 1);
    }
}

/// The diagnostic text of the failure that is in order when `event` ends the
/// work.
fn diagnostic_of(event: FoldEvent) -> (text: String)
    ensures
        text@ == event.diagnostic(),
{
    match event {
        FoldEvent::Failed(text) => text,
        _ => String::from_str("answer out of turn"),
    }
}

/// Gets the parent of a commit from the list of its parents: the one there
/// is, and none for a commit without a parent or with several.
pub fn get_parent_id(parents: &Vec<String>) -> (parent: Option<&String>)
    ensures
        parent is Some <==> parents.len() == 1,
        parent matches Some(p) ==> *p == parents[0],
{
    if parents.len() == 1 {
        Some(&parents[0])
    } else {
        None
    }
}

/// Gets the hashes of the manifests that the pointers in `texts` name, in
/// their order; fails with the failure of the first text that is no pointer.
pub fn get_tree_references(texts: &Vec<String>) -> (result: Result<Vec<String>, GfsError>)
    ensures
        match result {
            Ok(hashes) => first_unreadable(texts_of(texts@)) is None && texts_of(hashes@)
                == hashes_of(texts_of(texts@)),
            Err(e) => first_unreadable(texts_of(texts@)) matches Some(i) && parsed(
                texts_of(texts@)[i],
            ) == Err::<Seq<char>, GfsError>(e),
        },
{
    let ghost all = texts_of(texts@);
    let mut hashes: Vec<String> = Vec::new();
    let mut i: usize = 0;
    while i < texts.len()
        invariant
            i <= texts.len(),
            all == texts_of(texts@),
            hashes.len() == i,
            forall|k: int| 0 <= k < i ==> parsed(#[trigger] all[k]) is Ok,
            forall|k: int| 0 <= k < i ==> (#[trigger] hashes@[k])@ == parsed(all[k])->Ok_0,
        decreases texts.len() - i,
    {
        match Pointer::parse(texts[i].as_str()) {
            Ok(pointer) => {
                hashes.push(String::from_str(pointer.hash()));
            },
            Err(e) => {
                proof {
                    assert(parsed(all[i as int]) is Err);
                    let found = first_unreadable(all)->0;
                    assert(found == i) by {
                        if found < i {
                            assert(parsed(all[found]) is Ok);
                        }
                    }
                }
                return Err(e);
            },
        }
        i += 1;
    }
    assert(texts_of(hashes@) =~= hashes_of(all));
    Ok(hashes)
}

} // verus!
