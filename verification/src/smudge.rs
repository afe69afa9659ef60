//! Giving a file back: the pointer that was committed in its place is
//! resolved to its manifest, and the parts that the manifest lists are put
//! together in their order.
//!
//! The object store is not in reach of this module. It decides: each call of
//! [`Smudge::smudge`] takes what the store answered to the last request and
//! returns the next request. Bytes are handed out once, when all of them are
//! there; a file is given back whole or not at all.

use vstd::prelude::*;
use crate::create_gfs_ref;
use crate::error::GfsError;
use crate::gfs_ref_name;
use crate::manifest::{tree_ids, tree_names, unbroken, Manifest, TreeEntry};
use crate::pointer::{parsed, Pointer};
use crate::rows::{bytes_of, concat, lemma_concat_push, texts_of};

verus! {

/// How far the work on one file has come.
#[derive(Debug, Clone, Copy, PartialEq, Eq, Structural)]
pub enum SmudgePhase {
    /// The text of the pointer is awaited.
    Start,
    /// The tree behind the reference of the manifest is awaited.
    Resolving,
    /// The parts are awaited.
    Reading,
    /// Nothing more will be asked for.
    Finished,
}

/// What came in: the text to work on, or the answer of the object store to
/// the last request.
#[derive(Debug, PartialEq, Eq)]
pub enum SmudgeEvent {
    /// The text that stands in place of the file.
    Pointer(String),
    /// The entries of the tree behind the reference, in the order of the tree.
    Tree(Vec<TreeEntry>),
    /// What was asked for is not in the store.
    Missing,
    /// The bytes of the parts asked for, in the order asked.
    Parts(Vec<Vec<u8>>),
    /// The request could not be carried out.
    Failed(String),
}

/// What is to be done next.
#[derive(Debug, PartialEq, Eq)]
pub enum SmudgeAction {
    /// Hand over the tree that the reference names.
    Resolve { reference: String },
    /// Hand over the bytes of the objects with the given ids. `request` asks
    /// the store for them in the form of its batch command.
    ReadParts { ids: Vec<String>, request: String },
    /// Write these bytes out: they are the file. Nothing more is asked for.
    Emit(Vec<u8>),
    /// Stop: the file cannot be given back.
    Stop(GfsError),
}

/// Gives a file back from the pointer that stands in its place.
pub struct Smudge {
    phase: SmudgePhase,
    asked: usize,
}

/// The diagnostic text for an answer that does not fit the request.
pub open spec fn out_of_turn() -> Seq<char> {
    "answer out of turn"@
}

/// The line that asks the store for the contents of the object `id`.
pub open spec fn contents_line(id: Seq<char>) -> Seq<char> {
    "contents "@ + id + "\n"@
}

/// The lines that ask the store for the contents of the objects with the
/// given ids, in their order.
pub open spec fn batch_request(ids: Seq<Seq<char>>) -> Seq<char>
    decreases ids.len(),
{
    if ids.len() == 0 {
        Seq::empty()
    } else {
        batch_request(ids.drop_last()) + contents_line(ids.last())
    }
}

/// What the work on a text comes to when the store answers the reference
/// with `tree` (none where the reference does not resolve) and the request
/// for the parts with `parts`: the bytes of the file, or the reason why it
/// cannot be given back.
pub open spec fn reconstructed(
    text: Seq<char>,
    tree: Option<Seq<TreeEntry>>,
    parts: Seq<Seq<u8>>,
) -> Result<Seq<u8>, GfsError> {
    match parsed(text) {
        Err(e) => Err(e),
        Ok(hash) => match tree {
            None => Err(GfsError::DanglingPointer),
            Some(entries) => if !unbroken(tree_names(entries)) || parts.len() != entries.len() {
                Err(GfsError::TruncatedManifest)
            } else {
                Ok(concat(parts))
            },
        },
    }
}

impl SmudgeAction {
    /// Whether the action asks for the tree behind `reference`.
    pub open spec fn resolves(self, reference: Seq<char>) -> bool {
        self matches SmudgeAction::Resolve { reference: r } && r@ == reference
    }

    /// Whether the action asks for the objects with the given ids.
    pub open spec fn reads(self, ids: Seq<Seq<char>>) -> bool {
        self matches SmudgeAction::ReadParts { ids: i, request: r } && texts_of(i@) == ids && r@
            == batch_request(ids)
    }

    /// Whether the action hands out `bytes` as the file.
    pub open spec fn emits(self, bytes: Seq<u8>) -> bool {
        self matches SmudgeAction::Emit(b) && b@ == bytes
    }

    /// Whether the action stops the work with a failure of the plumbing that
    /// carries `diagnostic`.
    pub open spec fn stops_on_plumbing(self, diagnostic: Seq<char>) -> bool {
        self matches SmudgeAction::Stop(GfsError::PlumbingError(d)) && d@ == diagnostic
    }
}

impl SmudgeEvent {
    /// The diagnostic text of the failure that is in order when the event
    /// ends the work: its own for a failed request, else that of an answer
    /// out of turn.
    pub open spec fn diagnostic(self) -> Seq<char> {
        match self {
            SmudgeEvent::Failed(text) => text@,
            _ => out_of_turn(),
        }
    }
}

/// Puts byte strings in a row.
pub fn concatenate(pieces: &Vec<Vec<u8>>) -> (bytes: Vec<u8>)
    ensures
        bytes@ == concat(bytes_of(pieces@)),
{
    let ghost all = bytes_of(pieces@);
    let mut bytes: Vec<u8> = Vec::new();
    let mut k: usize = 0;
    assert(all.take(0) =~= Seq::<Seq<u8>>::empty());
    while k < pieces.len()
        invariant
            k <= pieces.len(),
            all == bytes_of(pieces@),
            bytes@ == concat(all.take(k as int)),
        decreases pieces.len() - k,
    {
        let piece = &pieces[k];
        let ghost before = bytes@;
        let mut i: usize = 0;
        while i < piece.len()
            invariant
                i <= piece.len(),
                bytes@ == before + piece@.take(i as int),
            decreases piece.len() - i,
        {
            bytes.push(piece[i]);
            assert(piece@.take(i + 1) == piece@.take(i as int).push(piece@[i as int]));
            i += 1;
        }
        proof {
            assert(piece@.take(piece.len() as int) == piece@);
            assert(all.take(k + 1) == all.take(k as int).push(piece@));
            lemma_concat_push(all.take(k as int), piece@);
        }
        k += 1;
    }
    assert(all.take(pieces.len() as int) == all);
    bytes
}

/// Writes the lines that ask the store for the contents of the objects with
/// the given ids.
pub fn contents_request(ids: &Vec<String>) -> (request: String)
    ensures
        request@ == batch_request(texts_of(ids@)),
{
    let ghost all = texts_of(ids@);
    let mut request = String::new();
    let mut k: usize = 0;
    assert(all.take(0) =~= Seq::<Seq<char>>::empty());
    while k < ids.len()
        invariant
            k <= ids.len(),
            all == texts_of(ids@),
            request@ == batch_request(all.take(k as int)),
        decreases ids.len() - k,
    {
        proof {
            let upto = all.take(k + 1);
            assert(upto.drop_last() == all.take(k as int));
            assert(upto.last() == ids@[k as int]@);
        }
        let ghost before = request@;
        request.append("contents ");
        request.append(ids[k].as_str());
        request.append("\n");
        assert(request@ =~= before + contents_line(ids@[k as int]@));
        k += 1;
    }
    assert(all.take(ids.len() as int) == all);
    request
}

impl Smudge {
    /// How far the work has come.
    pub closed spec fn phase(self) -> SmudgePhase {
        self.phase
    }

    /// The number of parts that were asked for.
    pub closed spec fn asked(self) -> nat {
        self.asked as nat
    }

    /// Work that has not begun.
    pub fn new() -> (work: Smudge)
        ensures
            work.phase() is Start,
    {
        Smudge { phase: SmudgePhase::Start, asked: 0 }
    }

    /// How far the work has come.
    pub fn current_phase(&self) -> (phase: SmudgePhase)
        ensures
            phase == self.phase(),
    {
        self.phase
    }

    /// Takes the text of the pointer, or the answer of the store to the last
    /// request, and returns what is to be done next.
    ///
    /// The text is read as a pointer, and the tree behind the reference
    /// `refs/gfs/<hash>` is asked for. A reference that is not in the store
    /// is a dangling pointer. The tree is read as a manifest; one whose names
    /// show a part missing is truncated. Then the parts are asked for, in
    /// their order; a part that is not in the store, or an answer with more
    /// or fewer parts than were asked for, is a truncated manifest too. The
    /// parts in a row are the file.
    pub fn smudge(&mut self, event: SmudgeEvent) -> (action: SmudgeAction)
        ensures
            action is Emit || action is Stop <==> final(self).phase() is Finished,
            old(self).phase() is Start ==> match event {
                SmudgeEvent::Pointer(text) => match parsed(text@) {
                    Ok(hash) => final(self).phase() is Resolving && action.resolves(
                        gfs_ref_name(hash),
                    ),
                    Err(e) => action == SmudgeAction::Stop(e),
                },
                _ => action.stops_on_plumbing(event.diagnostic()),
            },
            old(self).phase() is Resolving ==> match event {
                SmudgeEvent::Tree(tree) => if unbroken(tree_names(tree@)) {
                    final(self).phase() is Reading && action.reads(tree_ids(tree@))
                        && final(self).asked() == tree@.len()
                } else {
                    action == SmudgeAction::Stop(GfsError::TruncatedManifest)
                },
                SmudgeEvent::Missing => action == SmudgeAction::Stop(GfsError::DanglingPointer),
                _ => action.stops_on_plumbing(event.diagnostic()),
            },
            old(self).phase() is Reading ==> match event {
                SmudgeEvent::Parts(parts) => if parts@.len() == old(self).asked() {
                    action.emits(concat(bytes_of(parts@)))
                } else {
                    action == SmudgeAction::Stop(GfsError::TruncatedManifest)
                },
                SmudgeEvent::Missing => action == SmudgeAction::Stop(
                    GfsError::TruncatedManifest,
                ),
                _ => action.stops_on_plumbing(event.diagnostic()),
            },
            old(self).phase() is Finished ==> action.stops_on_plumbing(out_of_turn()),
    {
        match self.phase {
            SmudgePhase::Start => match event {
                SmudgeEvent::Pointer(text) => match Pointer::parse(text.as_str()) {
                    Ok(pointer) => {
                        self.phase = SmudgePhase::Resolving;
                        SmudgeAction::Resolve { reference: create_gfs_ref(pointer.hash()) }
                    },
                    Err(e) => {
                        self.phase = SmudgePhase::Finished;
                        SmudgeAction::Stop(e)
                    },
                },
                other => self.give_up(other),
            },
            SmudgePhase::Resolving => match event {
                SmudgeEvent::Tree(tree) => match Manifest::from_tree(&tree) {
                    Ok(manifest) => {
                        let ids = manifest.part_ids();
                        let request = contents_request(&ids);
                        self.asked = ids.len();
                        self.phase = SmudgePhase::Reading;
                        SmudgeAction::ReadParts { ids, request }
                    },
                    Err(e) => {
                        self.phase = SmudgePhase::Finished;
                        SmudgeAction::Stop(e)
                    },
                },
                SmudgeEvent::Missing => {
                    self.phase = SmudgePhase::Finished;
                    SmudgeAction::Stop(GfsError::DanglingPointer)
                },
                other => self.give_up(other),
            },
            SmudgePhase::Reading => match event {
                SmudgeEvent::Parts(parts) => {
                    self.phase = SmudgePhase::Finished;
                    if parts.len() == self.asked {
                        SmudgeAction::Emit(concatenate(&parts))
                    } else {
                        SmudgeAction::Stop(GfsError::TruncatedManifest)
                    }
                },
                SmudgeEvent::Missing => {
                    self.phase = SmudgePhase::Finished;
                    SmudgeAction::Stop(GfsError::TruncatedManifest)
                },
                other => self.give_up(other),
            },
            SmudgePhase::Finished => SmudgeAction::Stop(
                GfsError::PlumbingError(String::from_str("answer out of turn")),
            ),
        }
    }

    /// Ends the work on an answer that cannot be worked with.
    fn give_up(&mut self, event: SmudgeEvent) -> (action: SmudgeAction)
        ensures
            final(self).phase() is Finished,
            action.stops_on_plumbing(event.diagnostic()),
    {
        self.phase = SmudgePhase::Finished;
        let diagnostic = match event {
            SmudgeEvent::Failed(text) => text,
            _ => String::from_str("answer out of turn"),
        };
        SmudgeAction::Stop(GfsError::PlumbingError(diagnostic))
    }
}

/// The entries of the tree that the store answered with, if it did.
pub open spec fn entries_of(tree: Option<Vec<TreeEntry>>) -> Option<Seq<TreeEntry>> {
    match tree {
        Some(entries) => Some(entries@),
        None => None,
    }
}

/// Gives a file back from the text that stands in its place, where what
/// the store holds is at hand: `tree` is what the store answers when asked
/// for the reference that the pointer names (none where the reference does
/// not resolve), and `parts` what it answers when asked for the parts that
/// the tree lists.
pub fn smudge(text: &str, tree: Option<Vec<TreeEntry>>, parts: Vec<Vec<u8>>) -> (file: Result<
    Vec<u8>,
    GfsError,
>)
    ensures
        match file {
            Ok(bytes) => reconstructed(text@, entries_of(tree), bytes_of(parts@))
                == Ok::<Seq<u8>, GfsError>(bytes@),
            Err(e) => reconstructed(text@, entries_of(tree), bytes_of(parts@))
                == Err::<Seq<u8>, GfsError>(e),
        },
{
    let mut work = Smudge::new();
    match work.smudge(SmudgeEvent::Pointer(String::from_str(text))) {
        SmudgeAction::Stop(e) => {
            return Err(e);
        },
        _ => {},
    }
    let answer = match tree {
        Some(entries) => SmudgeEvent::Tree(entries),
        None => SmudgeEvent::Missing,
    };
    match work.smudge(answer) {
        SmudgeAction::Stop(e) => {
            return Err(e);
        },
        _ => {},
    }
    match work.smudge(SmudgeEvent::Parts(parts)) {
        SmudgeAction::Emit(bytes) => Ok(bytes),
        SmudgeAction::Stop(e) => Err(e),
        _ => Err(GfsError::TruncatedManifest),
    }
}

} // verus!
