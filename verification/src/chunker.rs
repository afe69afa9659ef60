//! Cutting a stream of bytes into chunks at places that its contents decide.
//!
//! Where a chunk ends is decided by the chunker from the bytes of the chunk
//! alone, and from no more than the largest size of a chunk of them. So a
//! stream can be cut while it comes in: whenever that many bytes are at
//! hand, the next chunk is known.
//!
//! The chunker has ranges of its own for the bounds, and takes even sizes
//! only. Bounds that are in order but that it does not take are fitted: it
//! is handed the nearest bounds it takes that lie between the smallest and
//! the largest size asked for, so that the chunks keep the bounds asked for.
//! Where no such bounds are, the stream is cut into chunks of the average
//! size, which keep the bounds too.

use vstd::prelude::*;
use crate::clean::CleanOptions;
use crate::error::GfsError;
use crate::rows::{bytes_of, concat, lemma_concat_prepend};
use crate::text::copy_bytes;

verus! {

/// Whether the chunker takes the bounds: each lies in the range that the
/// chunker has for it and is even, and they are in order.
pub open spec fn chunker_takes(min_size: u32, avg_size: u32, max_size: u32) -> bool {
    &&& 64 <= min_size <= 1_048_576
    &&& 256 <= avg_size <= 4_194_304
    &&& 1024 <= max_size <= 16_777_216
    &&& min_size % 2 == 0 && avg_size % 2 == 0 && max_size % 2 == 0
    &&& min_size <= avg_size <= max_size
}

/// The length of the first chunk that the chunker cuts from `window` under
/// the given bounds.
pub uninterp spec fn first_cut(
    window: Seq<u8>,
    min_size: u32,
    avg_size: u32,
    max_size: u32,
) -> usize;

/// Takes the first chunk that `fastcdc::v2020::FastCDC::new` yields for
/// `window`, and hands out its length. The chunker cuts a chunk from the
/// first byte on; it makes no chunk longer than the largest size, and none
/// shorter than the smallest unless the window ends there. It does not take
/// bounds outside its ranges, odd ones, or ones out of order.
#[verifier::external_body]
fn cut_first(window: &[u8], min_size: u32, avg_size: u32, max_size: u32) -> (length: Option<usize>)
    requires
        chunker_takes(min_size, avg_size, max_size),
        window@.len() > 0,
    ensures
        length == Some(first_cut(window@, min_size, avg_size, max_size)),
        length matches Some(n) ==> 0 < n <= window@.len() && n <= max_size && (n >= min_size || n
            == window@.len()),
{
    fastcdc::v2020::FastCDC::new(window, min_size as usize, avg_size as usize, max_size as usize)
        .next()
        .map(|chunk| chunk.length)
}

/// The bytes from which the end of the first chunk of `data` is decided:
/// as many as the largest chunk holds, or all of `data` if that is less.
pub open spec fn window_of(data: Seq<u8>, max_size: u32) -> Seq<u8> {
    if data.len() <= max_size {
        data
    } else {
        data.take(max_size as int)
    }
}

/// The number of bytes from which the end of a chunk is decided: the
/// largest size of the fitted bounds, or the average size where no bounds
/// fit.
pub open spec fn reach(options: CleanOptions) -> u32 {
    match options.fitted() {
        Some(fit) => fit.max_size,
        None => options.avg_size,
    }
}

/// The length of the first chunk of `data`, which is not empty. Where
/// bounds fit it is what the chunker cuts from the window under the fitted
/// bounds, held to the length of the window; where none fit it is the
/// length of the window.
pub open spec fn cut_at(data: Seq<u8>, options: CleanOptions) -> int {
    let window = window_of(data, reach(options));
    let cut = match options.fitted() {
        Some(fit) => first_cut(window, fit.min_size, fit.avg_size, fit.max_size) as int,
        None => window.len() as int,
    };
    if 0 < cut <= window.len() {
        cut
    } else if window.len() > 0 {
        window.len() as int
    } else {
        data.len() as int
    }
}

/// The chunks into which `data` is cut under the bounds of `options`: the
/// first chunk, and then the chunks of what follows it.
pub open spec fn chunks_of(data: Seq<u8>, options: CleanOptions) -> Seq<Seq<u8>>
    decreases data.len(),
{
    if data.len() == 0 {
        Seq::empty()
    } else {
        let cut = cut_at(data, options);
        seq![data.take(cut)] + chunks_of(data.skip(cut), options)
    }
}

/// The chunks of `buffer` that are known whatever follows it: those that
/// are cut while as many bytes are at hand as the end of a chunk is decided
/// from.
pub open spec fn ready_chunks(buffer: Seq<u8>, options: CleanOptions) -> Seq<Seq<u8>>
    decreases buffer.len(),
{
    if buffer.len() < reach(options) || reach(options) == 0 {
        Seq::empty()
    } else {
        let cut = cut_at(buffer, options);
        seq![buffer.take(cut)] + ready_chunks(buffer.skip(cut), options)
    }
}

/// What is left of `buffer` when the chunks that are known have been cut
/// from it.
pub open spec fn left_over(buffer: Seq<u8>, options: CleanOptions) -> Seq<u8>
    decreases buffer.len(),
{
    if buffer.len() < reach(options) || reach(options) == 0 {
        buffer
    } else {
        left_over(buffer.skip(cut_at(buffer, options)), options)
    }
}

/// Whether the chunks lie within the bounds: none is empty or longer than
/// `max_size`, and all but the last hold `min_size` bytes at least.
pub open spec fn within_bounds(chunks: Seq<Seq<u8>>, min_size: u32, max_size: u32) -> bool {
    &&& forall|k: int| 0 <= k < chunks.len() ==> 0 < (#[trigger] chunks[k]).len() <= max_size
    &&& forall|k: int| 0 <= k < chunks.len() - 1 ==> (#[trigger] chunks[k]).len() >= min_size
}

/// The chunks of a file make up the file: no byte is dropped and none
/// changes its place.
pub proof fn lemma_chunks_concat(data: Seq<u8>, options: CleanOptions)
    ensures
        concat(chunks_of(data, options)) == data,
    decreases data.len(),
{
    if data.len() == 0 {
        assert(concat(chunks_of(data, options)) =~= data);
    } else {
        let cut = cut_at(data, options);
        lemma_chunks_concat(data.skip(cut), options);
        lemma_concat_prepend(data.take(cut), chunks_of(data.skip(cut), options));
        assert(data.take(cut) + data.skip(cut) =~= data);
    }
}

/// The place in `data` at which the chunk at place `k` begins.
pub open spec fn boundary(data: Seq<u8>, options: CleanOptions, k: nat) -> int
    decreases k,
{
    if k == 0 || data.len() == 0 {
        0
    } else {
        let cut = cut_at(data, options);
        cut + boundary(data.skip(cut), options, (k - 1) as nat)
    }
}

/// The chunks of a file from one of them on are the chunks of what the
/// file holds from the beginning of that chunk on.
pub proof fn lemma_chunks_from_boundary(data: Seq<u8>, options: CleanOptions, k: nat)
    requires
        k <= chunks_of(data, options).len(),
    ensures
        0 <= boundary(data, options, k) <= data.len(),
        chunks_of(data, options).skip(k as int) == chunks_of(
            data.skip(boundary(data, options, k)),
            options,
        ),
    decreases k,
{
    if k == 0 {
        assert(data.skip(0) =~= data);
        assert(chunks_of(data, options).skip(0) =~= chunks_of(data, options));
    } else {
        let cut = cut_at(data, options);
        let rest = data.skip(cut);
        assert(data.len() > 0);
        lemma_chunks_from_boundary(rest, options, (k - 1) as nat);
        assert(chunks_of(data, options).skip(k as int) =~= chunks_of(rest, options).skip(k - 1));
        assert(rest.skip(boundary(rest, options, (k - 1) as nat)) =~= data.skip(
            boundary(data, options, k),
        ));
    }
}

/// Two files that hold the same bytes from the beginning of a chunk on
/// have the same chunks from there on: what differs before a chunk does
/// not reach the chunks behind it.
pub proof fn lemma_chunks_shared(
    one: Seq<u8>,
    other: Seq<u8>,
    options: CleanOptions,
    k: nat,
    m: nat,
)
    requires
        k <= chunks_of(one, options).len(),
        m <= chunks_of(other, options).len(),
        one.skip(boundary(one, options, k)) == other.skip(boundary(other, options, m)),
    ensures
        chunks_of(one, options).skip(k as int) == chunks_of(other, options).skip(m as int),
{
    lemma_chunks_from_boundary(one, options, k);
    lemma_chunks_from_boundary(other, options, m);
}

/// Cutting a stream while it comes in gives the chunks of the whole stream:
/// whatever follows the bytes at hand, the chunks of all of it are the
/// chunks that are known, and then the chunks of what is left over and what
/// follows.
pub proof fn lemma_ready_chunks(buffer: Seq<u8>, future: Seq<u8>, options: CleanOptions)
    requires
        reach(options) > 0,
    ensures
        chunks_of(buffer + future, options) == ready_chunks(buffer, options) + chunks_of(
            left_over(buffer, options) + future,
            options,
        ),
    decreases buffer.len(),
{
    if buffer.len() < reach(options) {
        assert(ready_chunks(buffer, options) + chunks_of(buffer + future, options) =~= chunks_of(
            buffer + future,
            options,
        ));
    } else {
        let whole = buffer + future;
        assert(window_of(whole, reach(options)) =~= window_of(buffer, reach(options)));
        let cut = cut_at(buffer, options);
        assert(cut == cut_at(whole, options));
        assert(whole.take(cut) =~= buffer.take(cut));
        assert(whole.skip(cut) =~= buffer.skip(cut) + future);
        lemma_ready_chunks(buffer.skip(cut), future, options);
        assert(chunks_of(whole, options) =~= seq![buffer.take(cut)] + (ready_chunks(
            buffer.skip(cut),
            options,
        ) + chunks_of(left_over(buffer.skip(cut), options) + future, options)));
        assert(chunks_of(whole, options) =~= ready_chunks(buffer, options) + chunks_of(
            left_over(buffer, options) + future,
            options,
        ));
    }
}

/// Cuts a stream of bytes into chunks, within bounds, at places that the
/// contents of the stream decide.
///
/// The bytes are handed over in any portions; the chunks are handed out as
/// soon as they are known, so that never as many bytes are held as the
/// largest chunk holds, but for the portion that is being handed over.
pub struct Chunker {
    options: CleanOptions,
    fitted: Option<CleanOptions>,
    buffer: Vec<u8>,
}

impl Chunker {
    #[verifier::type_invariant]
    spec fn well_formed(self) -> bool {
        &&& self.options.in_order()
        &&& self.fitted == self.options.fitted()
        &&& self.buffer@.len() < reach(self.options)
    }

    /// The bounds of the chunks.
    pub closed spec fn options(self) -> CleanOptions {
        self.options
    }

    /// The bytes that are at hand and belong to no chunk yet.
    pub closed spec fn buffer(self) -> Seq<u8> {
        self.buffer@
    }

    /// A chunker for the given bounds. Bounds that are out of order, or of
    /// which one is zero, are refused.
    pub fn new(options: CleanOptions) -> (chunker: Result<Chunker, GfsError>)
        ensures
            chunker is Ok <==> options.in_order(),
            chunker matches Ok(c) ==> c.options() == options && c.buffer() == Seq::<u8>::empty(),
            chunker matches Err(e) ==> e == GfsError::ConfigurationError,
    {
        if !options.is_usable() {
            return Err(GfsError::ConfigurationError);
        }
        Ok(Chunker { options, fitted: options.fit(), buffer: Vec::new() })
    }

    /// The length of the first chunk of `window`, which holds the bytes
    /// from which the end of that chunk is decided.
    fn cut(options: CleanOptions, fitted: Option<CleanOptions>, window: &[u8]) -> (length: usize)
        requires
            options.in_order(),
            fitted == options.fitted(),
            0 < window@.len() <= reach(options),
        ensures
            0 < length <= window@.len(),
            length <= options.largest(),
            length >= options.smallest() || length == window@.len(),
            window@.len() == reach(options) ==> length >= options.smallest(),
            forall|data: Seq<u8>|
                #![trigger cut_at(data, options)]
                window_of(data, reach(options)) == window@ ==> length == cut_at(data, options),
    {
        proof {
            options.lemma_fitted();
        }
        match fitted {
            Some(fit) => cut_first(window, fit.min_size, fit.avg_size, fit.max_size).unwrap(),
            None => window.len(),
        }
    }

    /// Takes the bytes of `buf` and hands out the chunks that are known
    /// with them: the chunks of the bytes at hand, as long as there are as
    /// many of these as the end of a chunk is decided from.
    pub fn write(&mut self, buf: &[u8]) -> (chunks: Vec<Vec<u8>>)
        ensures
            final(self).options() == old(self).options(),
            old(self).options().in_order(),
            bytes_of(chunks@) == ready_chunks(old(self).buffer() + buf@, old(self).options()),
            final(self).buffer() == left_over(old(self).buffer() + buf@, old(self).options()),
            forall|k: int|
                0 <= k < chunks.len() ==> old(self).options().smallest() <= (
                #[trigger] chunks@[k])@.len() <= old(self).options().largest(),
            old(self).options().min_size <= old(self).options().smallest(),
            old(self).options().largest() <= old(self).options().max_size,
    {
        proof {
            use_type_invariant(&*self);
            self.options.lemma_fitted();
        }
        let options = self.options;
        let fitted = self.fitted;
        let max: usize = match fitted {
            Some(fit) => fit.max_size as usize,
            None => options.avg_size as usize,
        };
        let ghost held = self.buffer@;
        let mut all: Vec<u8> = Vec::new();
        core::mem::swap(&mut all, &mut self.buffer);
        let mut i: usize = 0;
        while i < buf.len()
            invariant
                i <= buf.len(),
                all@ == held + buf@.take(i as int),
            decreases buf.len() - i,
        {
            all.push(buf[i]);
            assert(buf@.take(i + 1) == buf@.take(i as int).push(buf@[i as int]));
            i += 1;
        }
        assert(buf@.take(buf.len() as int) == buf@);
        let mut chunks: Vec<Vec<u8>> = Vec::new();
        let mut start: usize = 0;
        assert(all@.skip(0) =~= all@);
        assert(bytes_of(chunks@) + ready_chunks(all@.skip(0), options) =~= ready_chunks(
            all@,
            options,
        ));
        while all.len() - start >= max
            invariant
                start <= all.len(),
                options.in_order(),
                fitted == options.fitted(),
                max == reach(options),
                max > 0,
                ready_chunks(all@, options) == bytes_of(chunks@) + ready_chunks(
                    all@.skip(start as int),
                    options,
                ),
                left_over(all@, options) == left_over(all@.skip(start as int), options),
                forall|k: int|
                    0 <= k < chunks.len() ==> options.smallest() <= (#[trigger] chunks@[k])@.len()
                        <= options.largest(),
            decreases all.len() - start,
        {
            let ghost rest = all@.skip(start as int);
            let window = vstd::slice::slice_subrange(all.as_slice(), start, start + max);
            assert(window@ =~= window_of(rest, reach(options)));
            let cut = Chunker::cut(options, fitted, window);
            assert(cut == cut_at(rest, options));
            let chunk = copy_bytes(vstd::slice::slice_subrange(all.as_slice(), start, start + cut));
            proof {
                assert(chunk@ =~= rest.take(cut as int));
                assert(rest.skip(cut as int) =~= all@.skip(start + cut));
                assert(bytes_of(chunks@.push(chunk)) =~= bytes_of(chunks@).push(chunk@));
                assert(bytes_of(chunks@) + (seq![chunk@] + ready_chunks(
                    rest.skip(cut as int),
                    options,
                )) =~= bytes_of(chunks@).push(chunk@) + ready_chunks(
                    rest.skip(cut as int),
                    options,
                ));
            }
            chunks.push(chunk);
            start = start + cut;
        }
        proof {
            assert(bytes_of(chunks@) + Seq::<Seq<u8>>::empty() =~= bytes_of(chunks@));
        }
        let left = copy_bytes(vstd::slice::slice_subrange(all.as_slice(), start, all.len()));
        assert(left@ =~= all@.skip(start as int));
        self.buffer = left;
        chunks
    }

    /// Ends the stream: hands out the chunks of the bytes that are at hand.
    pub fn flush(self) -> (chunks: Vec<Vec<u8>>)
        ensures
            self.options().in_order(),
            bytes_of(chunks@) == chunks_of(self.buffer(), self.options()),
            within_bounds(bytes_of(chunks@), self.options().smallest(), self.options().largest()),
            self.options().min_size <= self.options().smallest(),
            self.options().largest() <= self.options().max_size,
    {
        proof {
            use_type_invariant(&self);
            self.options.lemma_fitted();
        }
        let options = self.options;
        let fitted = self.fitted;
        let all = self.buffer;
        let mut chunks: Vec<Vec<u8>> = Vec::new();
        let mut start: usize = 0;
        assert(all@.skip(0) =~= all@);
        assert(bytes_of(chunks@) + chunks_of(all@.skip(0), options) =~= chunks_of(all@, options));
        while start < all.len()
            invariant_except_break
                forall|k: int|
                    0 <= k < chunks.len() ==> options.smallest() <= (#[trigger] chunks@[k])@.len()
                        <= options.largest(),
            invariant
                start <= all.len(),
                options.in_order(),
                fitted == options.fitted(),
                all@.len() < reach(options),
                chunks_of(all@, options) == bytes_of(chunks@) + chunks_of(
                    all@.skip(start as int),
                    options,
                ),
            ensures
                start == all.len(),
                within_bounds(bytes_of(chunks@), options.smallest(), options.largest()),
                chunks_of(all@, options) == bytes_of(chunks@) + chunks_of(
                    all@.skip(start as int),
                    options,
                ),
            decreases all.len() - start,
        {
            let ghost rest = all@.skip(start as int);
            let window = vstd::slice::slice_subrange(all.as_slice(), start, all.len());
            assert(window@ =~= window_of(rest, reach(options)));
            let cut = Chunker::cut(options, fitted, window);
            assert(cut == cut_at(rest, options));
            let chunk = copy_bytes(vstd::slice::slice_subrange(all.as_slice(), start, start + cut));
            proof {
                assert(chunk@ =~= rest.take(cut as int));
                assert(rest.skip(cut as int) =~= all@.skip(start + cut));
                assert(bytes_of(chunks@.push(chunk)) =~= bytes_of(chunks@).push(chunk@));
                assert(bytes_of(chunks@) + (seq![chunk@] + chunks_of(
                    rest.skip(cut as int),
                    options,
                )) =~= bytes_of(chunks@).push(chunk@) + chunks_of(rest.skip(cut as int), options));
            }
            let ghost before = chunks@;
            chunks.push(chunk);
            start = start + cut;
            if start == all.len() {
                proof {
                    assert forall|k: int| 0 <= k < chunks.len() implies 0 < (
                    #[trigger] bytes_of(chunks@)[k]).len() <= options.largest() by {
                        if k < before.len() {
                            assert(chunks@[k] == before[k]);
                        }
                    }
                    assert forall|k: int| 0 <= k < chunks.len() - 1 implies (
                    #[trigger] bytes_of(chunks@)[k]).len() >= options.smallest() by {
                        assert(chunks@[k] == before[k]);
                    }
                }
                break ;
            }
        }
        proof {
            assert(all@.skip(all.len() as int) =~= Seq::<u8>::empty());
            assert(bytes_of(chunks@) + Seq::<Seq<u8>>::empty() =~= bytes_of(chunks@));
        }
        chunks
    }
}

/// Puts the chunks that were cut while a stream came in before those that
/// were cut at its end.
pub fn join_chunks(first: Vec<Vec<u8>>, second: Vec<Vec<u8>>) -> (all: Vec<Vec<u8>>)
    ensures
        bytes_of(all@) == bytes_of(first@) + bytes_of(second@),
        all@ == first@ + second@,
{
    let ghost wanted = first@ + second@;
    let mut all = first;
    let mut second = second;
    all.append(&mut second);
    assert(all@ =~= wanted);
    assert(bytes_of(wanted) =~= bytes_of(first@) + bytes_of(wanted.skip(first@.len() as int))) by {
        assert(forall|k: int| 0 <= k < first@.len() ==> wanted[k] == first@[k]);
    }
    all
}

} // verus!
