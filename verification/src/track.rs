//! Which paths are under large-file tracking: the patterns of the attribute
//! file that carry the filter of this library, and the paths they match.
//!
//! Reading and matching a pattern is the work of the host's glob engine; this
//! module holds a pattern as plain values and decides with what the engine
//! answers.

use vstd::prelude::*;
use vstd::string::StringSliceAdditionalSpecFns;
use crate::rows::{bytes_of, each_once};
use crate::text::{copy_bytes, same_bytes, same_text};

verus! {

/// What the glob engine makes of the text of a pattern: the text it keeps,
/// its mode bits, and the place of the first wildcard; none where the text
/// holds no pattern.
pub uninterp spec fn glob_parse(text: Seq<u8>) -> Option<(Seq<u8>, u32, Option<usize>)>;

/// Whether the glob engine finds that a pattern, given by its text, its mode
/// bits and the place of its first wildcard, matches the relative path
/// `path` of a file, where the case of letters is told apart and a wildcard
/// does not match a slash.
pub uninterp spec fn glob_matches(
    text: Seq<u8>,
    mode: u32,
    first_wildcard_pos: Option<usize>,
    path: Seq<u8>,
) -> bool;

/// What identifies a pattern: its text, its mode bits and the place of its
/// first wildcard.
pub type PatternKey = (Seq<u8>, u32, Option<usize>);

/// Whether the pattern with the given key matches `path`: the path is
/// relative, and the glob engine finds that the pattern matches it.
pub open spec fn key_matches(key: PatternKey, path: Seq<u8>) -> bool {
    is_relative(path) && glob_matches(key.0, key.1, key.2, path)
}

/// A glob pattern for matching paths, as the glob engine holds it.
#[derive(Debug, PartialEq, Eq)]
pub struct TrackPattern {
    text: Vec<u8>,
    mode: u32,
    first_wildcard_pos: Option<usize>,
}

/// Whether the place of the first wildcard lies inside the text.
pub open spec fn wildcard_in_text(text: Seq<u8>, first_wildcard_pos: Option<usize>) -> bool {
    first_wildcard_pos matches Some(pos) ==> pos < text.len()
}

/// Calls `gix::glob::parse`, which reads a pattern from its text and gives
/// none for a text without one; the fields of the pattern are handed out as
/// plain values. The contract names what the engine answers, and states that
/// the place of the first wildcard is a place in the text that is kept: the
/// engine finds it by searching that text.
#[verifier::external_body]
fn parse_with_engine(text: &[u8]) -> (parts: Option<(Vec<u8>, u32, Option<usize>)>)
    ensures
        match parts {
            Some((kept, mode, pos)) => glob_parse(text@) == Some((kept@, mode, pos)),
            None => glob_parse(text@) is None,
        },
        parts matches Some((kept, mode, pos)) ==> wildcard_in_text(kept@, pos),
{
    match gix::glob::parse(text) {
        Some(pattern) => Some(
            (pattern.text.into(), pattern.mode.bits(), pattern.first_wildcard_pos),
        ),
        None => None,
    }
}

/// Whether `path` is relative: it does not begin with a slash.
pub open spec fn is_relative(path: Seq<u8>) -> bool {
    path.len() == 0 || path[0] != 0x2f
}

/// The place behind the last slash of `path`, where its last component
/// begins; none where the path holds no slash.
pub open spec fn basename_start(path: Seq<u8>) -> Option<usize>
    decreases path.len(),
{
    if path.len() == 0 {
        None
    } else if path.last() == 0x2f {
        Some(path.len() as usize)
    } else {
        basename_start(path.drop_last())
    }
}

/// Finds the place behind the last slash of `path`.
fn find_basename(path: &[u8]) -> (start: Option<usize>)
    ensures
        start == basename_start(path@),
        start matches Some(s) ==> s <= path@.len(),
{
    let mut end: usize = path.len();
    assert(path@.take(end as int) == path@);
    while end > 0
        invariant
            end <= path.len(),
            basename_start(path@) == basename_start(path@.take(end as int)),
        decreases end,
    {
        if path[end - 1] == 0x2f {
            assert(path@.take(end as int).last() == 0x2f);
            return Some(end);
        }
        assert(path@.take(end as int).drop_last() == path@.take(end - 1));
        end -= 1;
    }
    None
}

/// Calls `gix::glob::Pattern::matches_repo_relative_path` on the pattern
/// made of the three values, for the path of a file, with the case of
/// letters told apart and in the mode in which a wildcard does not match a
/// slash. The engine slices the text at the place of the first wildcard,
/// which therefore has to lie inside the text; it takes relative paths
/// only, and wants to be told where the last component of the path begins.
/// The contract only names what the engine answers.
#[verifier::external_body]
fn match_with_engine(
    text: &[u8],
    mode: u32,
    first_wildcard_pos: Option<usize>,
    path: &[u8],
    basename: Option<usize>,
) -> (matched: bool)
    requires
        wildcard_in_text(text@, first_wildcard_pos),
        is_relative(path@),
        basename == basename_start(path@),
    ensures
        matched == glob_matches(text@, mode, first_wildcard_pos, path@),
{
    let pattern = gix::glob::Pattern {
        text: text.into(),
        mode: gix::glob::pattern::Mode::from_bits_retain(mode),
        first_wildcard_pos,
    };
    pattern.matches_repo_relative_path(
        path.into(),
        basename,
        Some(false),
        gix::glob::pattern::Case::Sensitive,
        gix::glob::wildmatch::Mode::NO_MATCH_SLASH_LITERAL,
    )
}

impl TrackPattern {
    #[verifier::type_invariant]
    spec fn well_formed(self) -> bool {
        wildcard_in_text(self.text@, self.first_wildcard_pos)
    }

    /// The text of the pattern.
    pub closed spec fn text_view(self) -> Seq<u8> {
        self.text@
    }

    /// The mode bits of the pattern.
    pub closed spec fn mode_view(self) -> u32 {
        self.mode
    }

    /// The place of the first wildcard in the text, if there is one.
    pub closed spec fn wildcard_view(self) -> Option<usize> {
        self.first_wildcard_pos
    }

    /// What identifies the pattern.
    pub open spec fn key(self) -> PatternKey {
        (self.text_view(), self.mode_view(), self.wildcard_view())
    }

    /// Whether the pattern matches `path`.
    pub open spec fn matches_spec(self, path: Seq<u8>) -> bool {
        key_matches(self.key(), path)
    }

    /// A pattern from its three values; none where the place of the first
    /// wildcard lies outside the text.
    pub fn new(text: Vec<u8>, mode: u32, first_wildcard_pos: Option<usize>) -> (pattern: Option<
        TrackPattern,
    >)
        ensures
            pattern is Some <==> wildcard_in_text(text@, first_wildcard_pos),
            pattern matches Some(p) ==> p.text_view() == text@ && p.mode_view() == mode
                && p.wildcard_view() == first_wildcard_pos,
    {
        let inside = match first_wildcard_pos {
            Some(pos) => pos < text.len(),
            None => true,
        };
        if inside {
            Some(TrackPattern { text, mode, first_wildcard_pos })
        } else {
            None
        }
    }

    /// Reads a pattern from its text, as the glob engine reads it.
    pub fn parse(text: &[u8]) -> (pattern: Option<TrackPattern>)
        ensures
            pattern is Some <==> glob_parse(text@) is Some,
            pattern matches Some(p) ==> glob_parse(text@) == Some(
                (p.text_view(), p.mode_view(), p.wildcard_view()),
            ),
    {
        match parse_with_engine(text) {
            Some((kept, mode, pos)) => TrackPattern::new(kept, mode, pos),
            None => None,
        }
    }

    /// The text of the pattern.
    pub fn text(&self) -> (text: &[u8])
        ensures
            text@ == self.text_view(),
    {
        self.text.as_slice()
    }

    /// The mode bits of the pattern.
    pub fn mode(&self) -> (mode: u32)
        ensures
            mode == self.mode_view(),
    {
        self.mode
    }

    /// The place of the first wildcard in the text, if there is one.
    pub fn first_wildcard_pos(&self) -> (pos: Option<usize>)
        ensures
            pos == self.wildcard_view(),
    {
        self.first_wildcard_pos
    }

    /// Whether the pattern matches the path of a file, with wildcards that
    /// do not match a slash. A path that begins with a slash is not matched.
    pub fn matches(&self, path: &[u8]) -> (matched: bool)
        ensures
            matched == self.matches_spec(path@),
    {
        proof {
            use_type_invariant(self);
        }
        if path.len() > 0 && path[0] == 0x2f {
            return false;
        }
        let basename = find_basename(path);
        match_with_engine(
            self.text.as_slice(),
            self.mode,
            self.first_wildcard_pos,
            path,
            basename,
        )
    }

    /// Whether two patterns are the same one.
    pub fn same_as(&self, other: &TrackPattern) -> (same: bool)
        ensures
            same == (self.text_view() == other.text_view() && self.mode_view()
                == other.mode_view() && self.wildcard_view() == other.wildcard_view()),
    {
        let same_pos = match (self.first_wildcard_pos, other.first_wildcard_pos) {
            (Some(a), Some(b)) => a == b,
            (None, None) => true,
            _ => false,
        };
        same_pos && self.mode == other.mode && same_bytes(
            self.text.as_slice(),
            other.text.as_slice(),
        )
    }

}

impl Clone for TrackPattern {
    /// A copy of the pattern.
    fn clone(&self) -> (copy: TrackPattern)
        ensures
            copy.text_view() == self.text_view(),
            copy.mode_view() == self.mode_view(),
            copy.wildcard_view() == self.wildcard_view(),
    {
        proof {
            use_type_invariant(self);
        }
        TrackPattern {
            text: copy_bytes(self.text.as_slice()),
            mode: self.mode,
            first_wildcard_pos: self.first_wildcard_pos,
        }
    }
}


/// The state of an attribute at a path.
#[derive(Debug, Clone, PartialEq, Eq)]
pub enum AttributeState {
    /// The attribute is listed, or has the special value 'true'.
    On,
    /// The attribute has the special value 'false', or was prefixed with `-`.
    Off,
    /// The attribute is set to the value that followed the `=` sign.
    Value(Vec<u8>),
    /// The attribute is not mentioned, or was prefixed with `!`.
    Unspecified,
}

/// One line of the attribute file as far as this library reads it: a
/// pattern, and one attribute that the line assigns to the paths it matches.
#[derive(Debug, PartialEq, Eq)]
pub struct AttributeMatch {
    pub pattern: TrackPattern,
    pub name: String,
    pub state: AttributeState,
}

/// How a path changed from one tree to the next.
#[derive(Debug, Clone, Copy, PartialEq, Eq)]
pub enum ChangeKind {
    Addition,
    Deletion,
    Modification,
    Rewrite,
}

/// One entry of the difference between two trees.
#[derive(Debug, Clone, PartialEq, Eq)]
pub struct TreeChange {
    pub kind: ChangeKind,
    pub location: Vec<u8>,
}

/// The name of the attribute that selects a filter.
pub open spec fn filter_attribute() -> Seq<char> {
    "filter"@
}

/// The name of the filter of this library: the bytes of `gfs`.
pub open spec fn gfs_filter() -> Seq<u8> {
    seq![0x67u8, 0x66u8, 0x73u8]
}

impl AttributeMatch {
    /// Whether the line assigns the filter of this library.
    pub open spec fn selects_gfs(self) -> bool {
        self.name@ == filter_attribute() && (self.state matches AttributeState::Value(value)
            && value@ == gfs_filter())
    }
}

/// The keys of the patterns of those lines that assign the filter of this
/// library, in the order of the lines.
pub open spec fn gfs_keys(matches: Seq<AttributeMatch>) -> Seq<PatternKey>
    decreases matches.len(),
{
    if matches.len() == 0 {
        Seq::empty()
    } else if matches.last().selects_gfs() {
        gfs_keys(matches.drop_last()).push(matches.last().pattern.key())
    } else {
        gfs_keys(matches.drop_last())
    }
}

/// The keys of the patterns in `patterns`.
pub open spec fn keys_of(patterns: Seq<TrackPattern>) -> Seq<PatternKey> {
    patterns.map_values(|p: TrackPattern| p.key())
}

/// Whether one of the patterns with the given keys matches `path`.
pub open spec fn matched_by_any(keys: Seq<PatternKey>, path: Seq<u8>) -> bool {
    exists|i: int| 0 <= i < keys.len() && key_matches(#[trigger] keys[i], path)
}

/// Those of `paths` that one of the patterns with the given keys matches, in
/// their order.
pub open spec fn matched_paths(paths: Seq<Seq<u8>>, keys: Seq<PatternKey>) -> Seq<Seq<u8>> {
    paths.filter(|path: Seq<u8>| matched_by_any(keys, path))
}

/// The places of those changes that are no deletion, in their order.
pub open spec fn kept_locations(changes: Seq<TreeChange>) -> Seq<Seq<u8>>
    decreases changes.len(),
{
    if changes.len() == 0 {
        Seq::empty()
    } else if changes.last().kind is Deletion {
        kept_locations(changes.drop_last())
    } else {
        kept_locations(changes.drop_last()).push(changes.last().location@)
    }
}

/// Checks to see if a line of the attribute file assigns the filter of this
/// library: the attribute `filter` with the value `gfs`.
pub fn has_gfs_attributes_filter(m: &AttributeMatch) -> (selected: bool)
    ensures
        selected == m.selects_gfs(),
{
    let is_filter = same_text(m.name.as_str(), "filter");
    let is_gfs = match &m.state {
        AttributeState::Value(value) => {
            let gfs: [u8; 3] = [0x67, 0x66, 0x73];
            assert(gfs@ =~= gfs_filter());
            same_bytes(value.as_slice(), &gfs)
        },
        _ => false,
    };
    is_filter && is_gfs
}

/// Whether `patterns` holds the pattern `wanted`.
fn holds_pattern(patterns: &Vec<TrackPattern>, wanted: &TrackPattern) -> (held: bool)
    ensures
        held == keys_of(patterns@).contains(wanted.key()),
{
    let mut i: usize = 0;
    while i < patterns.len()
        invariant
            i <= patterns.len(),
            forall|k: int| 0 <= k < i ==> keys_of(patterns@)[k] != wanted.key(),
        decreases patterns.len() - i,
    {
        if patterns[i].same_as(wanted) {
            assert(keys_of(patterns@)[i as int] == wanted.key());
            return true;
        }
        i += 1;
    }
    false
}

/// Gets the patterns used by this library: those of the lines of the
/// attribute file that assign its filter, each pattern once.
///
/// When one of the patterns matches a path, that path (file) is managed by
/// this library.
pub fn get_patterns(matches: &Vec<AttributeMatch>) -> (patterns: Vec<TrackPattern>)
    ensures
        keys_of(patterns@) == each_once(gfs_keys(matches@)),
{
    let mut patterns: Vec<TrackPattern> = Vec::new();
    let mut i: usize = 0;
    assert(matches@.take(0) == Seq::<AttributeMatch>::empty());
    while i < matches.len()
        invariant
            i <= matches.len(),
            keys_of(patterns@) == each_once(gfs_keys(matches@.take(i as int))),
        decreases matches.len() - i,
    {
        let m = &matches[i];
        proof {
            let upto = matches@.take(i + 1);
            let front = gfs_keys(matches@.take(i as int));
            assert(upto.drop_last() == matches@.take(i as int));
            assert(upto.last() == matches@[i as int]);
            assert(front.push(m.pattern.key()).drop_last() == front);
            assert(front.push(m.pattern.key()).last() == m.pattern.key());
        }
        if has_gfs_attributes_filter(m) && !holds_pattern(&patterns, &m.pattern) {
            let ghost before = keys_of(patterns@);
            patterns.push(m.pattern.clone());
            assert(keys_of(patterns@) =~= before.push(m.pattern.key()));
        }
        i += 1;
    }
    assert(matches@.take(matches.len() as int) == matches@);
    patterns
}

/// Retrieves the places of the changes that added, modified or rewrote a
/// file. It does not include deleted files.
pub fn get_non_deleted_files_from_diff(changes: &Vec<TreeChange>) -> (paths: Vec<Vec<u8>>)
    ensures
        bytes_of(paths@) == kept_locations(changes@),
{
    let mut paths: Vec<Vec<u8>> = Vec::new();
    let mut i: usize = 0;
    assert(changes@.take(0) == Seq::<TreeChange>::empty());
    assert(bytes_of(paths@) =~= Seq::<Seq<u8>>::empty());
    while i < changes.len()
        invariant
            i <= changes.len(),
            bytes_of(paths@) == kept_locations(changes@.take(i as int)),
        decreases changes.len() - i,
    {
        proof {
            let upto = changes@.take(i + 1);
            assert(upto.drop_last() == changes@.take(i as int));
            assert(upto.last() == changes@[i as int]);
        }
        let deleted = match changes[i].kind {
            ChangeKind::Deletion => true,
            _ => false,
        };
        if !deleted {
            let ghost before = bytes_of(paths@);
            paths.push(copy_bytes(changes[i].location.as_slice()));
            assert(bytes_of(paths@) =~= before.push(changes@[i as int].location@));
        }
        i += 1;
    }
    assert(changes@.take(changes.len() as int) == changes@);
    paths
}

/// Whether one of `patterns` matches `path`.
pub fn matches_any(patterns: &Vec<TrackPattern>, path: &[u8]) -> (matched: bool)
    ensures
        matched == matched_by_any(keys_of(patterns@), path@),
{
    let mut i: usize = 0;
    while i < patterns.len()
        invariant
            i <= patterns.len(),
            forall|k: int| 0 <= k < i ==> !key_matches(#[trigger] keys_of(patterns@)[k], path@),
        decreases patterns.len() - i,
    {
        if patterns[i].matches(path) {
            assert(key_matches(keys_of(patterns@)[i as int], path@));
            return true;
        }
        i += 1;
    }
    false
}

/// Keeps those of `paths` that are large files of this library: the ones
/// that one of `patterns` matches.
pub fn tracked_paths(paths: &Vec<Vec<u8>>, patterns: &Vec<TrackPattern>) -> (kept: Vec<Vec<u8>>)
    ensures
        bytes_of(kept@) == matched_paths(bytes_of(paths@), keys_of(patterns@)),
{
    let ghost pred = |path: Seq<u8>| matched_by_any(keys_of(patterns@), path);
    let ghost all = bytes_of(paths@);
    let mut kept: Vec<Vec<u8>> = Vec::new();
    let mut i: usize = 0;
    proof {
        reveal(Seq::filter);
        assert(all.take(0) == Seq::<Seq<u8>>::empty());
        assert(bytes_of(kept@) =~= Seq::<Seq<u8>>::empty());
    }
    while i < paths.len()
        invariant
            i <= paths.len(),
            all == bytes_of(paths@),
            pred == |path: Seq<u8>| matched_by_any(keys_of(patterns@), path),
            bytes_of(kept@) == all.take(i as int).filter(pred),
        decreases paths.len() - i,
    {
        proof {
            reveal(Seq::filter);
            let upto = all.take(i + 1);
            assert(upto.drop_last() == all.take(i as int));
            assert(upto.last() == paths@[i as int]@);
        }
        if matches_any(patterns, paths[i].as_slice()) {
            let ghost before = bytes_of(kept@);
            kept.push(copy_bytes(paths[i].as_slice()));
            assert(bytes_of(kept@) =~= before.push(paths@[i as int]@));
        }
        i += 1;
    }
    assert(all.take(paths.len() as int) == all);
    kept
}

/// The paths whose pointers a commit brought: the places of its changes that
/// are no deletion and that a pattern of this library matches.
pub open spec fn touched_paths(changes: Seq<TreeChange>, matches: Seq<AttributeMatch>) -> Seq<
    Seq<u8>,
> {
    matched_paths(kept_locations(changes), each_once(gfs_keys(matches)))
}

/// Gets the paths whose pointers a commit brought, from the changes of the
/// commit and the lines of the attribute file: the places of the changes
/// that are no deletion and that a pattern with the filter of this library
/// matches.
pub fn get_touched_paths(changes: &Vec<TreeChange>, matches: &Vec<AttributeMatch>) -> (paths: Vec<
    Vec<u8>,
>)
    ensures
        bytes_of(paths@) == touched_paths(changes@, matches@),
{
    let patterns = get_patterns(matches);
    let kept = get_non_deleted_files_from_diff(changes);
    tracked_paths(&kept, &patterns)
}

/// Reads a pattern from the text given on the command line.
pub fn pattern_from_str(text: &str) -> (pattern: Option<TrackPattern>)
    ensures
        pattern is Some <==> glob_parse(text.spec_bytes()) is Some,
        pattern matches Some(p) ==> glob_parse(text.spec_bytes()) == Some(p.key()),
{
    TrackPattern::parse(text.as_bytes())
}

} // verus!
