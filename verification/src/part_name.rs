//! The names of the parts of one file: texts of lower-case letters that
//! follow one another as the parts do, and sort as they follow.
//!
//! The first name is a row of `a`s. The name after a name is made by
//! counting one up in its last letter, with `z` running over into the letter
//! before; a name of `z`s only is followed by itself with an `a` behind it.

use vstd::prelude::*;

verus! {

/// Whether `name` is made of lower-case letters, at least one.
pub open spec fn is_part_name(name: Seq<char>) -> bool {
    name.len() > 0 && forall|i: int| 0 <= i < name.len() ==> 'a' <= #[trigger] name[i] <= 'z'
}

/// Whether `name` is made of the letter `z` only.
pub open spec fn all_z(name: Seq<char>) -> bool {
    forall|i: int| 0 <= i < name.len() ==> #[trigger] name[i] == 'z'
}

/// The letter after a letter.
pub open spec fn letter_after(c: char) -> char {
    ((c as u8 + 1) as u8) as char
}

/// A name counted one up: the last letter that is no `z` is replaced by the
/// letter after it, and every `z` behind it by `a`.
pub open spec fn counted_up(name: Seq<char>) -> Seq<char>
    decreases name.len(),
{
    if name.len() == 0 {
        name
    } else if name.last() == 'z' {
        counted_up(name.drop_last()).push('a')
    } else {
        name.drop_last().push(letter_after(name.last()))
    }
}

/// The name after `name`.
pub open spec fn name_after(name: Seq<char>) -> Seq<char> {
    if all_z(name) && name.len() > 0 {
        name.push('a')
    } else {
        counted_up(name)
    }
}

/// The first name of the given width: so many letters `a`.
pub open spec fn first_name(width: nat) -> Seq<char> {
    Seq::new(width, |i: int| 'a')
}

/// The name of the part at `index`, where the first name has the given
/// width.
pub open spec fn name_at(width: nat, index: nat) -> Seq<char>
    decreases index,
{
    if index == 0 {
        first_name(width)
    } else {
        name_after(name_at(width, (index - 1) as nat))
    }
}

/// Whether `a` comes before `b` as words are ordered: at the first place
/// where they differ `a` has the smaller letter, or `a` ends there and `b`
/// goes on.
pub open spec fn sorts_before(a: Seq<char>, b: Seq<char>) -> bool {
    exists|k: int|
        0 <= k <= a.len() && k <= b.len() && #[trigger] a.take(k) == b.take(k) && (if k
            == a.len() {
            k < b.len()
        } else {
            k < b.len() && a[k] < b[k]
        })
}

/// The widest first name that is made. The name is the name of an entry of
/// a tree, and the hosts that keep trees as files hold the name of a file to
/// 255 bytes; a wider first name would be one that cannot be checked out.
/// The limit also keeps the one allocation that makes the name small.
pub const MAX_WIDTH: usize = 255;

/// Calls `prng_split::AlphaPathSegment::from_factor`, which makes the text
/// of `width` letters `a`. It allocates `width` characters at once, and
/// does not return where that allocation cannot be had, so the width is
/// held to `MAX_WIDTH`.
#[verifier::external_body]
fn segment_of_width(width: usize) -> (name: String)
    requires
        width <= MAX_WIDTH,
    ensures
        name@ == first_name(width as nat),
{
    prng_split::AlphaPathSegment::from_factor(width).0
}

/// Calls `prng_split::AlphaPathSegment::increment_mut` on the segment that
/// holds `name`, and hands back what the segment holds then. The method
/// walks the letters from the last one: a `z` becomes `a` and the walk goes
/// on, any other letter becomes the letter after it and the walk ends; where
/// every letter was `z` they are all set back to `z` and an `a` is put
/// behind them. It does not return on a text that holds anything but
/// lower-case letters.
#[verifier::external_body]
fn segment_after(name: String) -> (next: String)
    requires
        is_part_name(name@),
    ensures
        next@ == name_after(name@),
{
    let mut segment = prng_split::AlphaPathSegment(name);
    segment.increment_mut();
    segment.0
}

/// Counting up keeps a name a name of the same width.
proof fn lemma_counted_up(name: Seq<char>)
    requires
        is_part_name(name),
        !all_z(name),
    ensures
        is_part_name(counted_up(name)),
        counted_up(name).len() == name.len(),
        sorts_before(name, counted_up(name)),
    decreases name.len(),
{
    let front = name.drop_last();
    let up = counted_up(name);
    if name.last() == 'z' {
        assert(!all_z(front)) by {
            if all_z(front) {
                assert forall|i: int| 0 <= i < name.len() implies #[trigger] name[i] == 'z' by {
                    if i < front.len() {
                        assert(front[i] == 'z');
                    }
                }
            }
        }
        assert(front.len() > 0);
        assert(is_part_name(front)) by {
            assert forall|i: int| 0 <= i < front.len() implies 'a' <= #[trigger] front[i]
                <= 'z' by {
                assert(front[i] == name[i]);
            }
        }
        lemma_counted_up(front);
        let front_up = counted_up(front);
        let k = choose|k: int|
            0 <= k <= front.len() && k <= front_up.len() && #[trigger] front.take(k)
                == front_up.take(k) && (if k == front.len() {
                k < front_up.len()
            } else {
                k < front_up.len() && front[k] < front_up[k]
            });
        assert(k < front.len());
        assert(name.take(k) =~= front.take(k));
        assert(up.take(k) =~= front_up.take(k));
        assert(name[k] == front[k]);
        assert(up[k] == front_up[k]);
    } else {
        let k = name.len() - 1;
        assert(name.take(k) =~= up.take(k));
        assert(name[k] < up[k]);
        assert forall|i: int| 0 <= i < up.len() implies 'a' <= #[trigger] up[i] <= 'z' by {
            if i < k {
                assert(up[i] == name[i]);
            }
        }
    }
}

/// The name after a name is a name, and sorts behind it.
pub proof fn lemma_name_after(name: Seq<char>)
    requires
        is_part_name(name),
    ensures
        is_part_name(name_after(name)),
        sorts_before(name, name_after(name)),
{
    if all_z(name) {
        let next = name.push('a');
        assert(name.take(name.len() as int) =~= next.take(name.len() as int));
        assert forall|i: int| 0 <= i < next.len() implies 'a' <= #[trigger] next[i] <= 'z' by {
            if i < name.len() {
                assert(next[i] == name[i]);
            }
        }
    } else {
        lemma_counted_up(name);
    }
}

/// What sorts before a text that sorts before a third sorts before the
/// third.
pub proof fn lemma_sorts_before_chains(a: Seq<char>, b: Seq<char>, c: Seq<char>)
    requires
        sorts_before(a, b),
        sorts_before(b, c),
    ensures
        sorts_before(a, c),
{
    let k = choose|k: int|
        0 <= k <= a.len() && k <= b.len() && #[trigger] a.take(k) == b.take(k) && (if k
            == a.len() {
            k < b.len()
        } else {
            k < b.len() && a[k] < b[k]
        });
    let m = choose|m: int|
        0 <= m <= b.len() && m <= c.len() && #[trigger] b.take(m) == c.take(m) && (if m
            == b.len() {
            m < c.len()
        } else {
            m < c.len() && b[m] < c[m]
        });
    let n = if k <= m {
        k
    } else {
        m
    };
    assert(a.take(n) =~= c.take(n)) by {
        assert(a.take(n) =~= a.take(k).take(n));
        assert(b.take(n) =~= b.take(k).take(n));
        assert(b.take(n) =~= b.take(m).take(n));
        assert(c.take(n) =~= c.take(m).take(n));
    }
    if k < m {
        // a and b part at k, where b and c still agree
        assert(b.take(m)[k] == c.take(m)[k]);
    } else if m < k {
        // b and c part at m, where a and b still agree
        assert(a.take(k)[m] == b.take(k)[m]);
    }
}

/// Every name in the row of names is a name.
pub proof fn lemma_name_at_is_name(width: nat, index: nat)
    requires
        width > 0,
    ensures
        is_part_name(name_at(width, index)),
    decreases index,
{
    if index > 0 {
        lemma_name_at_is_name(width, (index - 1) as nat);
        lemma_name_after(name_at(width, (index - 1) as nat));
    }
}

/// The names sort as the parts follow one another: the name of an earlier
/// part sorts before that of a later one, and so no two parts share a name.
pub proof fn lemma_names_sort(width: nat, earlier: nat, later: nat)
    requires
        width > 0,
        earlier < later,
    ensures
        sorts_before(name_at(width, earlier), name_at(width, later)),
        name_at(width, earlier) != name_at(width, later),
    decreases later,
{
    let before = name_at(width, (later - 1) as nat);
    lemma_name_at_is_name(width, (later - 1) as nat);
    lemma_name_after(before);
    if earlier + 1 < later {
        lemma_names_sort(width, earlier, (later - 1) as nat);
        lemma_sorts_before_chains(name_at(width, earlier), before, name_at(width, later));
    }
}

/// The name of the first part, `width` letters wide; none where the width
/// is zero or more than `MAX_WIDTH`.
pub fn first_part_name(width: usize) -> (name: Option<String>)
    ensures
        name is Some <==> 0 < width <= MAX_WIDTH,
        name matches Some(n) ==> n@ == name_at(width as nat, 0),
{
    if width == 0 || width > MAX_WIDTH {
        None
    } else {
        Some(segment_of_width(width))
    }
}

/// Whether `name` is made of lower-case letters, at least one.
pub fn check_part_name(name: &str) -> (ok: bool)
    ensures
        ok == is_part_name(name@),
{
    let chars = crate::text::chars_of(name);
    if chars.len() == 0 {
        return false;
    }
    let mut i: usize = 0;
    while i < chars.len()
        invariant
            i <= chars.len(),
            chars@ == name@,
            forall|k: int| 0 <= k < i ==> 'a' <= #[trigger] chars@[k] <= 'z',
        decreases chars.len() - i,
    {
        if !('a' <= chars[i] && chars[i] <= 'z') {
            assert(!('a' <= name@[i as int] <= 'z'));
            return false;
        }
        i += 1;
    }
    true
}

/// The name of the part after the part with the name `name`; none where
/// `name` is no name of a part.
pub fn next_part_name(name: String) -> (next: Option<String>)
    ensures
        next is Some <==> is_part_name(name@),
        next matches Some(n) ==> n@ == name_after(name@) && is_part_name(n@),
{
    if check_part_name(name.as_str()) {
        proof {
            lemma_name_after(name@);
        }
        Some(segment_after(name))
    } else {
        None
    }
}

} // verus!
