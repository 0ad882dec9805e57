//! Cutting JPEG frames out of the byte stream that ffmpeg writes: a frame
//! runs from a start-of-image marker (`FF D8`) to the next end-of-image
//! marker (`FF D9`).

use vstd::prelude::*;

verus! {

/// Bytes of garbage a buffer may hold, with no start-of-image marker in it,
/// before it is discarded.
pub const MAX_GARBAGE: usize = 1048576;

/// Bytes an unfinished frame may hold before it is discarded.
pub const MAX_PARTIAL_FRAME: usize = 4194304;

/// The start-of-image marker `FF D8` stands at `i`.
pub open spec fn soi_at(s: Seq<u8>, i: int) -> bool {
    0 <= i && i + 1 < s.len() && s[i] == 0xFF && s[i + 1] == 0xD8
}

/// The end-of-image marker `FF D9` stands at `i`.
pub open spec fn eoi_at(s: Seq<u8>, i: int) -> bool {
    0 <= i && i + 1 < s.len() && s[i] == 0xFF && s[i + 1] == 0xD9
}

/// `i` is the first start-of-image marker of `s`.
pub open spec fn first_soi(s: Seq<u8>, i: int) -> bool {
    soi_at(s, i) && forall|k: int| 0 <= k < i ==> !soi_at(s, k)
}

/// In `b`, which begins with a start-of-image marker, the frame ends at `e`:
/// just after the first end-of-image marker that starts at index 2 or later.
pub open spec fn frame_end(b: Seq<u8>, e: int) -> bool {
    e >= 4 && eoi_at(b, e - 2) && forall|k: int| 2 <= k < e - 2 ==> !eoi_at(b, k)
}

/// One extraction step on the buffer `s`: the frame cut out, if a complete
/// one is there, and what stays in the buffer.
///
/// - No start-of-image marker: no frame; the buffer is emptied if it holds
///   more than `MAX_GARBAGE` bytes and kept otherwise.
/// - A start marker but no end after it: no frame; the bytes before the
///   start marker are dropped, and the rest is emptied too if it holds more
///   than `MAX_PARTIAL_FRAME` bytes.
/// - Otherwise: the frame from the first start marker through the following
///   end marker, and the bytes after it stay.
pub open spec fn next_jpeg(s: Seq<u8>) -> (Option<Seq<u8>>, Seq<u8>) {
    if !(exists|i: int| first_soi(s, i)) {
        (None, if s.len() > MAX_GARBAGE { Seq::empty() } else { s })
    } else {
        let i = choose|i: int| first_soi(s, i);
        let b = s.subrange(i, s.len() as int);
        if !(exists|e: int| frame_end(b, e)) {
            (None, if b.len() > MAX_PARTIAL_FRAME { Seq::empty() } else { b })
        } else {
            let e = choose|e: int| frame_end(b, e);
            (Some(b.take(e)), b.skip(e))
        }
    }
}

proof fn lemma_first_soi_unique(s: Seq<u8>, i: int, j: int)
    requires
        first_soi(s, i),
        first_soi(s, j),
    ensures
        i == j,
{
}

proof fn lemma_frame_end_unique(b: Seq<u8>, e: int, f: int)
    requires
        frame_end(b, e),
        frame_end(b, f),
    ensures
        e == f,
{
    if e < f {
        assert(!eoi_at(b, e - 2));
    }
    if f < e {
        assert(!eoi_at(b, f - 2));
    }
}

/// Takes the next complete JPEG frame out of `buffer`, as [`next_jpeg`]
/// describes.
pub fn extract_next_jpeg(buffer: &mut Vec<u8>) -> (r: Option<Vec<u8>>)
    ensures
        match r {
            Some(f) => next_jpeg(old(buffer)@).0 == Some(f@),
            None => next_jpeg(old(buffer)@).0 is None,
        },
        final(buffer)@ == next_jpeg(old(buffer)@).1,
{
    let ghost s = buffer@;
    let n = buffer.len();
    let mut i: usize = 0;
    while i < n && i + 1 < n && !(buffer[i] == 0xFF && buffer[i + 1] == 0xD8)
        invariant
            buffer@ == s,
            n == s.len(),
            i <= n,
            forall|k: int| 0 <= k < i ==> !soi_at(s, k),
        decreases n - i,
    {
        i = i + 1;
    }
    if !(i < n && i + 1 < n) {
        assert forall|k: int| !first_soi(s, k) by {
            if first_soi(s, k) {
                assert(k < i);
            }
        }
        if n > MAX_GARBAGE {
            buffer.clear();
        }
        return None;
    }
    assert(first_soi(s, i as int));
    proof {
        let c = choose|k: int| first_soi(s, k);
        lemma_first_soi_unique(s, i as int, c);
    }
    if i > 0 {
        let tail = buffer.split_off(i);
        *buffer = tail;
    } else {
        assert(s.subrange(0, s.len() as int) == s);
    }
    let ghost b = buffer@;
    assert(b == s.subrange(i as int, s.len() as int));
    let m = buffer.len();
    let mut k: usize = 2;
    while k < m && k + 1 < m && !(buffer[k] == 0xFF && buffer[k + 1] == 0xD9)
        invariant
            buffer@ == b,
            m == b.len(),
            m >= 2,
            2 <= k <= m,
            forall|j: int| 2 <= j < k ==> !eoi_at(b, j),
        decreases m - k,
    {
        k = k + 1;
    }
    if !(k < m && k + 1 < m) {
        assert forall|e: int| !frame_end(b, e) by {
            if frame_end(b, e) {
                assert(e - 2 < k);
            }
        }
        if m > MAX_PARTIAL_FRAME {
            buffer.clear();
        }
        return None;
    }
    let end = k + 2;
    assert(frame_end(b, end as int));
    proof {
        let c = choose|e: int| frame_end(b, e);
        lemma_frame_end_unique(b, end as int, c);
    }
    let mut rest = buffer.split_off(end);
    std::mem::swap(buffer, &mut rest);
    assert(rest@ == b.take(end as int));
    assert(buffer@ == b.skip(end as int));
    Some(rest)
}

/// A frame taken from a buffer begins with a start-of-image marker, ends with
/// an end-of-image marker, has no end marker between, and was preceded in
/// the buffer only by bytes holding no start marker: the buffer was those
/// bytes, the frame and what stays.
pub proof fn lemma_extracted_frame_shape(s: Seq<u8>)
    requires
        next_jpeg(s).0 is Some,
    ensures
        ({
            let f = next_jpeg(s).0->0;
            let rest = next_jpeg(s).1;
            &&& f.len() >= 4
            &&& soi_at(f, 0)
            &&& eoi_at(f, f.len() - 2)
            &&& forall|k: int| 2 <= k < f.len() - 2 ==> !eoi_at(f, k)
            &&& exists|g: Seq<u8>|
                s == g + f + rest && forall|k: int| 0 <= k < g.len() ==> !soi_at(s, k)
        }),
{
    let i = choose|i: int| first_soi(s, i);
    let b = s.subrange(i, s.len() as int);
    let e = choose|e: int| frame_end(b, e);
    let f = b.take(e);
    let rest = b.skip(e);
    let g = s.take(i);
    assert(eoi_at(b, e - 2));
    assert(f[e - 2] == b[e - 2]);
    assert(f[e - 1] == b[e - 1]);
    assert(soi_at(s, i));
    assert(f[0] == s[i]);
    assert(f[1] == s[i + 1]);
    assert forall|k: int| 2 <= k < f.len() - 2 implies !eoi_at(f, k) by {
        assert(!eoi_at(b, k));
        assert(f[k] == b[k]);
        assert(f[k + 1] == b[k + 1]);
    }
    assert(s =~= g + f + rest);
}


/// A successful step leaves a shorter buffer.
pub proof fn lemma_next_jpeg_shrinks(s: Seq<u8>)
    requires
        next_jpeg(s).0 is Some,
    ensures
        next_jpeg(s).1.len() < s.len(),
{
    let i = choose|i: int| first_soi(s, i);
    let b = s.subrange(i, s.len() as int);
    let e = choose|e: int| frame_end(b, e);
    assert(eoi_at(b, e - 2));
}

/// Repeated extraction until no complete frame is left: the frames, in
/// order, and what stays in the buffer.
pub open spec fn drain_jpegs(s: Seq<u8>) -> (Seq<Seq<u8>>, Seq<u8>)
    decreases s.len(),
{
    let step = next_jpeg(s);
    if step.0 is Some && step.1.len() < s.len() {
        let rest = drain_jpegs(step.1);
        (seq![step.0->0] + rest.0, rest.1)
    } else {
        (Seq::empty(), step.1)
    }
}

/// A complete JPEG frame as ffmpeg writes it: a start-of-image marker, then
/// bytes holding no end-of-image marker, then the end-of-image marker.
pub open spec fn is_jpeg_frame(f: Seq<u8>) -> bool {
    &&& f.len() >= 4
    &&& soi_at(f, 0)
    &&& eoi_at(f, f.len() - 2)
    &&& forall|k: int| 2 <= k < f.len() - 2 ==> !eoi_at(f, k)
}

/// The start of a frame that has not ended yet and is within the size an
/// unfinished frame may have.
pub open spec fn is_unfinished_frame(t: Seq<u8>) -> bool {
    &&& t.len() <= MAX_PARTIAL_FRAME
    &&& soi_at(t, 0)
    &&& forall|k: int| 2 <= k ==> !eoi_at(t, k)
}

proof fn lemma_next_jpeg_of_frame(f: Seq<u8>, t: Seq<u8>)
    requires
        is_jpeg_frame(f),
    ensures
        next_jpeg(f + t) == (Some(f), t),
{
    let s = f + t;
    let n = f.len() as int;
    assert(s[0] == f[0] && s[1] == f[1]);
    assert(first_soi(s, 0));
    let i = choose|i: int| first_soi(s, i);
    lemma_first_soi_unique(s, i, 0);
    let b = s.subrange(0, s.len() as int);
    assert(b =~= s);
    assert(b[n - 2] == f[n - 2] && b[n - 1] == f[n - 1]);
    assert forall|k: int| 2 <= k < n - 2 implies !eoi_at(b, k) by {
        assert(b[k] == f[k] && b[k + 1] == f[k + 1]);
        assert(!eoi_at(f, k));
    }
    assert(frame_end(b, n));
    let e = choose|e: int| frame_end(b, e);
    lemma_frame_end_unique(b, e, n);
    assert(b.take(n) =~= f);
    assert(b.skip(n) =~= t);
}

proof fn lemma_next_jpeg_of_tail(t: Seq<u8>)
    requires
        t.len() == 0 || is_unfinished_frame(t),
    ensures
        next_jpeg(t) == (None::<Seq<u8>>, t),
{
    if t.len() > 0 {
        assert(first_soi(t, 0));
        let i = choose|i: int| first_soi(t, i);
        lemma_first_soi_unique(t, i, 0);
        let b = t.subrange(0, t.len() as int);
        assert(b =~= t);
        assert forall|e: int| !frame_end(b, e) by {
            if frame_end(b, e) {
                assert(eoi_at(t, e - 2));
            }
        }
    }
}

/// A stream made of complete frames, perhaps followed by the start of an
/// unfinished frame, gives back exactly those frames, in order and whatever
/// their size, and keeps the unfinished frame for later.
pub proof fn lemma_frames_round_trip(fs: Seq<Seq<u8>>, tail: Seq<u8>)
    requires
        forall|i: int| 0 <= i < fs.len() ==> is_jpeg_frame(#[trigger] fs[i]),
        tail.len() == 0 || is_unfinished_frame(tail),
    ensures
        drain_jpegs(fs.flatten() + tail) == (fs, tail),
    decreases fs.len(),
{
    let s = fs.flatten() + tail;
    if fs.len() == 0 {
        assert(s =~= tail);
        lemma_next_jpeg_of_tail(tail);
        assert(fs =~= Seq::<Seq<u8>>::empty());
    } else {
        let f = fs.first();
        let rest = fs.drop_first();
        assert forall|i: int| 0 <= i < rest.len() implies is_jpeg_frame(#[trigger] rest[i]) by {
            assert(rest[i] == fs[i + 1]);
        }
        assert(is_jpeg_frame(fs[0]));
        let r = rest.flatten() + tail;
        assert(s =~= f + r);
        lemma_next_jpeg_of_frame(f, r);
        lemma_frames_round_trip(rest, tail);
        assert(seq![f] + rest =~= fs);
    }
}

/// The contents of a list of byte vectors.
pub open spec fn byte_vecs(v: Seq<Vec<u8>>) -> Seq<Seq<u8>> {
    v.map_values(|f: Vec<u8>| f@)
}

/// Appends `data` to `pending` and takes out every complete frame, as
/// [`drain_jpegs`] describes.
pub fn take_frames(pending: &mut Vec<u8>, data: &[u8]) -> (frames: Vec<Vec<u8>>)
    ensures
        byte_vecs(frames@) == drain_jpegs(old(pending)@ + data@).0,
        final(pending)@ == drain_jpegs(old(pending)@ + data@).1,
{
    pending.extend_from_slice(data);
    let ghost s0 = pending@;
    assert(s0 =~= old(pending)@ + data@);
    let mut frames: Vec<Vec<u8>> = Vec::new();
    loop
        invariant
            s0 == old(pending)@ + data@,
            byte_vecs(frames@) + drain_jpegs(pending@).0 == drain_jpegs(s0).0,
            drain_jpegs(pending@).1 == drain_jpegs(s0).1,
        decreases pending@.len(),
    {
        let ghost before = pending@;
        match extract_next_jpeg(pending) {
            Some(f) => {
                proof {
                    lemma_next_jpeg_shrinks(before);
                    assert(drain_jpegs(before).0 == seq![f@] + drain_jpegs(pending@).0);
                }
                let ghost old_frames = frames@;
                frames.push(f);
                assert(byte_vecs(frames@) =~= byte_vecs(old_frames).push(f@));
                assert(byte_vecs(frames@) + drain_jpegs(pending@).0 =~= byte_vecs(old_frames) + (
                seq![f@] + drain_jpegs(pending@).0));
            },
            None => {
                assert(drain_jpegs(before).0 == Seq::<Seq<u8>>::empty());
                assert(drain_jpegs(before).1 == pending@);
                assert(byte_vecs(frames@) + Seq::<Seq<u8>>::empty() =~= byte_vecs(frames@));
                return frames;
            },
        }
    }
}

} // verus!
