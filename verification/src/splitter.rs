//! Splitting a stream of bytes into parts of a fixed size.

use vstd::prelude::*;
use crate::error::GfsError;
use crate::part_name::{
    first_part_name, lemma_name_at_is_name, name_at, next_part_name, MAX_WIDTH,
};
use crate::rows::{bytes_of, concat, lemma_concat_push};

verus! {

/// An ordered, zero-indexed slice of the byte stream of a file, with the
/// name that stands for its place.
#[derive(Debug, Clone, PartialEq, Eq)]
pub struct Part {
    pub index: usize,
    pub name: String,
    pub bytes: Vec<u8>,
}

/// The bytes of each part.
pub open spec fn bytes_of_parts(parts: Seq<Part>) -> Seq<Seq<u8>> {
    parts.map_values(|part: Part| part.bytes@)
}

/// Whether the parts are numbered from zero on and named as their numbers
/// ask, the first name being `width` letters wide.
pub open spec fn numbered(parts: Seq<Part>, width: nat) -> bool {
    forall|k: int|
        0 <= k < parts.len() ==> (#[trigger] parts[k]).index == k && parts[k].name@ == name_at(
            width,
            k as nat,
        )
}

/// Whether the byte strings are what a split into parts of `size` bytes
/// gives: none is empty, and all but the last hold exactly `size` bytes, the
/// last no more.
pub open spec fn sized(pieces: Seq<Seq<u8>>, size: nat) -> bool {
    &&& forall|k: int| 0 <= k < pieces.len() - 1 ==> (#[trigger] pieces[k]).len() == size
    &&& pieces.len() > 0 ==> 0 < pieces.last().len() <= size
}

/// The number of parts into which `len` bytes fall when each part holds
/// `size` bytes and the last one what is left over.
pub open spec fn piece_count(len: nat, size: nat) -> nat {
    if size == 0 {
        0
    } else {
        ((len + size - 1) / (size as int)) as nat
    }
}

/// The bytes of the part at place `k`: those from `k * size` up to the next
/// multiple of `size`, or to the end of `data` where that comes first.
pub open spec fn fixed_piece(data: Seq<u8>, size: nat, k: int) -> Seq<u8> {
    data.subrange(
        k * size,
        if (k + 1) * size <= data.len() {
            (k + 1) * size
        } else {
            data.len() as int
        },
    )
}

/// The parts into which `data` falls when each part holds `size` bytes and
/// the last one what is left over.
pub open spec fn fixed_pieces(data: Seq<u8>, size: nat) -> Seq<Seq<u8>> {
    Seq::new(piece_count(data.len(), size), |k: int| fixed_piece(data, size, k))
}

/// Full pieces in a row hold as many bytes as there are pieces, times their
/// size.
proof fn lemma_concat_full(pieces: Seq<Seq<u8>>, size: nat)
    requires
        forall|k: int| 0 <= k < pieces.len() ==> (#[trigger] pieces[k]).len() == size,
    ensures
        concat(pieces).len() == pieces.len() * size,
    decreases pieces.len(),
{
    if pieces.len() > 0 {
        let front = pieces.drop_last();
        assert forall|k: int| 0 <= k < front.len() implies (#[trigger] front[k]).len()
            == size by {
            assert(front[k] == pieces[k]);
        }
        lemma_concat_full(front, size);
        assert(pieces.len() * size == front.len() * size + size) by (nonlinear_arith)
            requires
                pieces.len() == front.len() + 1,
        ;
    } else {
        assert(pieces.len() * size == 0) by (nonlinear_arith)
            requires
                pieces.len() == 0,
        ;
    }
}

/// The first pieces of a row, put in a row, are the front of the whole row.
proof fn lemma_concat_front(pieces: Seq<Seq<u8>>, k: int)
    requires
        0 <= k <= pieces.len(),
    ensures
        concat(pieces.take(k)).len() <= concat(pieces).len(),
        concat(pieces.take(k)) == concat(pieces).take(concat(pieces.take(k)).len() as int),
        k < pieces.len() ==> concat(pieces.take(k + 1)) == concat(pieces.take(k)) + pieces[k],
    decreases pieces.len() - k,
{
    if k == pieces.len() {
        assert(pieces.take(k) == pieces);
        assert(concat(pieces).take(concat(pieces).len() as int) == concat(pieces));
    } else {
        lemma_concat_front(pieces, k + 1);
        assert(pieces.take(k + 1).drop_last() == pieces.take(k));
        assert(pieces.take(k + 1).last() == pieces[k]);
        let shorter = concat(pieces.take(k));
        let longer = concat(pieces.take(k + 1));
        assert(longer == shorter + pieces[k]);
        assert(shorter =~= longer.take(shorter.len() as int));
        assert(longer.take(shorter.len() as int) =~= concat(pieces).take(shorter.len() as int));
    }
}

/// The first parts of a file, in a row, are the front of the file.
proof fn lemma_fixed_pieces_front(data: Seq<u8>, size: nat, k: int)
    requires
        size > 0,
        0 <= k <= piece_count(data.len(), size),
    ensures
        concat(fixed_pieces(data, size).take(k)) == data.take(
            if k * size <= data.len() {
                k * size
            } else {
                data.len() as int
            },
        ),
    decreases k,
{
    let pieces = fixed_pieces(data, size);
    let n = piece_count(data.len(), size) as int;
    if k == 0 {
        assert(0 * size == 0) by (nonlinear_arith);
        assert(data.take(0) =~= Seq::<u8>::empty());
        assert(pieces.take(0) =~= Seq::<Seq<u8>>::empty());
    } else {
        lemma_fixed_pieces_front(data, size, k - 1);
        assert(pieces.take(k).drop_last() =~= pieces.take(k - 1));
        assert(pieces.take(k).last() == fixed_piece(data, size, k - 1));
        assert(k * size == (k - 1) * size + size) by (nonlinear_arith);
        // the part at place k - 1 begins inside the file
        assert((k - 1) * size < data.len()) by (nonlinear_arith)
            requires
                1 <= k <= (data.len() + size - 1) / (size as int),
                size > 0,
        ;
        assert(concat(pieces.take(k)) =~= data.take(
            if k * size <= data.len() {
                k * size
            } else {
                data.len() as int
            },
        ));
    }
}

/// The parts of a file make up the file: no byte is dropped and none
/// changes its place.
pub proof fn lemma_fixed_pieces_concat(data: Seq<u8>, size: nat)
    requires
        size > 0,
    ensures
        concat(fixed_pieces(data, size)) == data,
{
    let n = piece_count(data.len(), size) as int;
    lemma_fixed_pieces_front(data, size, n);
    assert(fixed_pieces(data, size).take(n) =~= fixed_pieces(data, size));
    assert(n * size >= data.len()) by (nonlinear_arith)
        requires
            n == (data.len() + size - 1) / (size as int),
            size > 0,
    ;
    assert(data.take(data.len() as int) =~= data);
}

/// Byte strings that are sized as a split into parts of `size` bytes sizes
/// them, and that make up `data` in a row, are the parts of `data`: there is
/// one way only to split into parts of a fixed size.
pub proof fn lemma_fixed_pieces(pieces: Seq<Seq<u8>>, data: Seq<u8>, size: nat)
    requires
        size > 0,
        concat(pieces) == data,
        sized(pieces, size),
    ensures
        pieces == fixed_pieces(data, size),
{
    let n = pieces.len() as int;
    if n == 0 {
        assert(data.len() == 0);
        assert((0 + size - 1) / (size as int) == 0) by (nonlinear_arith)
            requires
                size > 0,
        ;
        assert(pieces =~= fixed_pieces(data, size));
    } else {
        let front = pieces.take(n - 1);
        assert forall|k: int| 0 <= k < front.len() implies (#[trigger] front[k]).len()
            == size by {
            assert(front[k] == pieces[k]);
        }
        lemma_concat_full(front, size);
        lemma_concat_front(pieces, n - 1);
        lemma_concat_front(pieces, n);
        assert(pieces.take(n) == pieces);
        let rest = pieces[n - 1].len();
        assert(data.len() == (n - 1) * size + rest);
        assert((data.len() + size - 1) / (size as int) == n) by (nonlinear_arith)
            requires
                data.len() == (n - 1) * size + rest,
                0 < rest <= size,
                n >= 1,
        ;
        assert forall|k: int| 0 <= k < n implies #[trigger] pieces[k] == fixed_piece(
            data,
            size,
            k,
        ) by {
            let upto = pieces.take(k);
            assert forall|j: int| 0 <= j < upto.len() implies (#[trigger] upto[j]).len()
                == size by {
                assert(upto[j] == pieces[j]);
            }
            lemma_concat_full(upto, size);
            lemma_concat_front(pieces, k);
            lemma_concat_front(pieces, k + 1);
            let start = concat(upto).len() as int;
            let end = concat(pieces.take(k + 1)).len() as int;
            assert(start == k * size);
            assert(end == start + pieces[k].len());
            assert(pieces[k] =~= concat(pieces.take(k + 1)).subrange(start, end));
            assert(concat(pieces.take(k + 1)).subrange(start, end) =~= data.subrange(start, end));
            assert((k + 1) * size == k * size + size) by (nonlinear_arith);
            if k < n - 1 {
                assert((k + 1) * size <= (n - 1) * size) by (nonlinear_arith)
                    requires
                        k + 1 <= n - 1,
                ;
            } else {
                assert(end == data.len());
            }
        }
        assert(pieces =~= fixed_pieces(data, size));
    }
}

/// Split a stream of bytes into parts of a fixed size.
///
/// The bytes are handed over in any portions; whenever a part is full it is
/// handed out, so that never more than one part is held.
pub struct Splitter {
    size: u32,
    pending: Vec<u8>,
}

impl Splitter {
    #[verifier::type_invariant]
    spec fn well_formed(self) -> bool {
        self.pending@.len() < self.size
    }

    /// The number of bytes of a full part.
    pub closed spec fn size(self) -> nat {
        self.size as nat
    }

    /// The bytes of the part that is being filled.
    pub closed spec fn pending(self) -> Seq<u8> {
        self.pending@
    }

    /// A splitter into parts of `size` bytes. A size of zero is refused.
    pub fn new(size: u32) -> (splitter: Result<Splitter, GfsError>)
        ensures
            splitter is Ok <==> size > 0,
            splitter matches Ok(s) ==> s.size() == size && s.pending() == Seq::<u8>::empty(),
            splitter matches Err(e) ==> e == GfsError::ConfigurationError,
    {
        if size == 0 {
            return Err(GfsError::ConfigurationError);
        }
        Ok(Splitter { size, pending: Vec::new() })
    }

    /// Takes bytes from the front of `buf`: as many as the part that is being
    /// filled still has room for, or all of `buf` if that is less. Returns
    /// their number, and the bytes of the part if it became full.
    pub fn write(&mut self, buf: &[u8]) -> (taken: (usize, Option<Vec<u8>>))
        ensures
            final(self).size() == old(self).size(),
            old(self).pending().len() < old(self).size(),
            taken.0 == if buf@.len() <= old(self).size() - old(self).pending().len() {
                buf@.len() as int
            } else {
                old(self).size() - old(self).pending().len()
            },
            old(self).pending().len() + taken.0 < old(self).size() ==> taken.1 is None
                && final(self).pending() == old(self).pending() + buf@.take(taken.0 as int),
            old(self).pending().len() + taken.0 == old(self).size() ==> final(self).pending()
                == Seq::<u8>::empty() && (taken.1 matches Some(part) && part@ == old(
                self,
            ).pending() + buf@.take(taken.0 as int)),
    {
        proof {
            use_type_invariant(&*self);
        }
        let remaining: usize = self.size as usize - self.pending.len();
        let last: usize = if buf.len() <= remaining {
            buf.len()
        } else {
            remaining
        };
        let ghost before = self.pending@;
        let mut pending: Vec<u8> = Vec::new();
        core::mem::swap(&mut pending, &mut self.pending);
        let mut i: usize = 0;
        while i < last
            invariant
                i <= last <= buf@.len(),
                pending@ == before + buf@.take(i as int),
            decreases last - i,
        {
            pending.push(buf[i]);
            assert(buf@.take(i + 1) == buf@.take(i as int).push(buf@[i as int]));
            i += 1;
        }
        if last < remaining {
            self.pending = pending;
            (last, None)
        } else {
            (last, Some(pending))
        }
    }

    /// Ends the stream: hands out the bytes of the part that was being
    /// filled, unless there are none.
    pub fn flush(self) -> (last: Option<Vec<u8>>)
        ensures
            self.pending().len() < self.size(),
            last is Some <==> self.pending().len() > 0,
            last matches Some(part) ==> part@ == self.pending(),
    {
        proof {
            use_type_invariant(&self);
        }
        if self.pending.len() == 0 {
            None
        } else {
            Some(self.pending)
        }
    }
}

/// Numbers and names byte strings as the parts of one file, from zero on
/// and from a first name of `factor` letters on. A factor of zero or above
/// `MAX_WIDTH` is refused.
pub fn number_parts(pieces: Vec<Vec<u8>>, factor: usize) -> (parts: Result<Vec<Part>, GfsError>)
    ensures
        parts is Ok <==> 0 < factor <= MAX_WIDTH,
        parts matches Ok(p) ==> bytes_of_parts(p@) == bytes_of(pieces@) && numbered(
            p@,
            factor as nat,
        ),
        parts matches Err(e) ==> e == GfsError::ConfigurationError,
{
    let mut name = match first_part_name(factor) {
        Some(name) => name,
        None => {
            return Err(GfsError::ConfigurationError);
        },
    };
    let ghost all = bytes_of(pieces@);
    let mut pieces = pieces;
    let mut parts: Vec<Part> = Vec::new();
    let mut k: usize = 0;
    while k < pieces.len()
        invariant
            k <= pieces.len(),
            pieces.len() == all.len(),
            parts.len() == k,
            factor > 0,
            name@ == name_at(factor as nat, k as nat),
            forall|j: int| k <= j < pieces.len() ==> (#[trigger] pieces@[j])@ == all[j],
            forall|j: int|
                0 <= j < k ==> (#[trigger] parts@[j]).index == j && parts@[j].bytes@ == all[j]
                    && parts@[j].name@ == name_at(factor as nat, j as nat),
        decreases pieces.len() - k,
    {
        proof {
            lemma_name_at_is_name(factor as nat, k as nat);
        }
        let next = next_part_name(name.clone()).unwrap();
        let mut bytes: Vec<u8> = Vec::new();
        core::mem::swap(&mut bytes, &mut pieces[k]);
        parts.push(Part { index: k, name, bytes });
        name = next;
        k += 1;
    }
    assert(bytes_of_parts(parts@) =~= all);
    Ok(parts)
}

/// Splits `data` into parts of `size` bytes, the last one holding what is
/// left over. The parts are numbered from zero on, and named from a first
/// name of `factor` letters on. A size of zero is refused, and so is a
/// factor of zero or above `MAX_WIDTH`.
pub fn split_fixed(data: &[u8], size: u32, factor: usize) -> (parts: Result<Vec<Part>, GfsError>)
    ensures
        parts is Ok <==> size > 0 && 0 < factor <= MAX_WIDTH,
        parts matches Ok(p) ==> bytes_of_parts(p@) == fixed_pieces(data@, size as nat) && concat(
            bytes_of_parts(p@),
        ) == data@ && sized(bytes_of_parts(p@), size as nat) && numbered(p@, factor as nat),
        parts matches Err(e) ==> e == GfsError::ConfigurationError,
{
    let mut splitter = match Splitter::new(size) {
        Ok(splitter) => splitter,
        Err(e) => {
            return Err(e);
        },
    };
    let mut pieces: Vec<Vec<u8>> = Vec::new();
    let mut at: usize = 0;
    assert(data@.take(0) =~= concat(bytes_of(pieces@)) + splitter.pending());
    while at < data.len()
        invariant
            at <= data.len(),
            splitter.size() == size,
            concat(bytes_of(pieces@)) + splitter.pending() == data@.take(at as int),
            forall|k: int|
                0 <= k < pieces.len() ==> (#[trigger] bytes_of(pieces@)[k]).len() == size,
        decreases data.len() - at,
    {
        let rest = vstd::slice::slice_subrange(data, at, data.len());
        let ghost before = bytes_of(pieces@);
        let ghost held = splitter.pending();
        let (taken, full) = splitter.write(rest);
        proof {
            assert(rest@.take(taken as int) =~= data@.subrange(at as int, at + taken));
            assert(data@.take(at + taken) =~= data@.take(at as int) + rest@.take(taken as int));
            assert(concat(before) + (held + rest@.take(taken as int)) =~= (concat(before) + held)
                + rest@.take(taken as int));
        }
        match full {
            Some(piece) => {
                proof {
                    lemma_concat_push(before, piece@);
                }
                pieces.push(piece);
                assert(bytes_of(pieces@) =~= before.push(piece@));
                assert(concat(bytes_of(pieces@)) + splitter.pending() =~= data@.take(at + taken));
            },
            None => {},
        }
        at = at + taken;
    }
    assert(data@.take(data.len() as int) == data@);
    let ghost before = bytes_of(pieces@);
    let ghost held = splitter.pending();
    match splitter.flush() {
        Some(piece) => {
            proof {
                lemma_concat_push(before, piece@);
            }
            pieces.push(piece);
            assert(bytes_of(pieces@) =~= before.push(held));
        },
        None => {
            assert(held =~= Seq::<u8>::empty());
            assert(concat(before) + held =~= concat(before));
        },
    }
    proof {
        lemma_fixed_pieces(bytes_of(pieces@), data@, size as nat);
    }
    number_parts(pieces, factor)
}

} // verus!
