use vstd::prelude::*;

use crate::config::INVALID_BYTE;
use crate::config::SKIP_THRESHOLD;
use crate::model::awaits_end_marker;
use crate::model::initial_view;
use crate::model::line_address;
use crate::model::line_end;
use crate::model::line_payload;
use crate::model::step_result;
use crate::model::step_view;
use crate::model::view_ok;
use crate::model::BuildReader;
use crate::model::BuildReaderRes;
use crate::model::DecoderView;

verus! {

/// A frame as `get_line` reports it.
pub struct Line {
    pub address: int,
    pub payload: Seq<u8>,
    pub end_marker: u8,
}

/// The line a decoder reports once it has taken in `s`.
pub open spec fn line_of(s: Seq<u8>) -> Line {
    Line { address: line_address(s), payload: line_payload(s), end_marker: line_end(s) }
}

/// What a run of writes yields.
pub struct Fed {
    /// The answer to each byte, in order.
    pub results: Seq<BuildReaderRes>,
    /// The line reported at each `EndLine`, in order.
    pub lines: Seq<Line>,
    /// The decoder state at the end.
    pub state: DecoderView,
}

/// Writes `bytes` one at a time from state `v`, clearing the decoder after
/// each `EndLine` and taking its line first.
pub open spec fn feed(v: DecoderView, bytes: Seq<u8>) -> Fed
    decreases bytes.len(),
{
    if bytes.len() == 0 {
        Fed { results: Seq::empty(), lines: Seq::empty(), state: v }
    } else {
        let r = step_result(v, bytes[0]);
        let v1 = step_view(v, bytes[0]);
        if r == BuildReaderRes::EndLine {
            let rest = feed(initial_view(), bytes.drop_first());
            Fed {
                results: seq![r] + rest.results,
                lines: seq![line_of(v1.accepted)] + rest.lines,
                state: rest.state,
            }
        } else {
            let rest = feed(v1, bytes.drop_first());
            Fed { results: seq![r] + rest.results, lines: rest.lines, state: rest.state }
        }
    }
}

/// Number of `EndLine` answers in `rs`.
pub open spec fn count_end_lines(rs: Seq<BuildReaderRes>) -> nat
    decreases rs.len(),
{
    if rs.len() == 0 {
        0
    } else {
        (if rs[0] == BuildReaderRes::EndLine { 1nat } else { 0nat }) + count_end_lines(rs.drop_first())
    }
}

/// Number of `IgnoreAndSkipData` answers in `rs`.
pub open spec fn count_skips(rs: Seq<BuildReaderRes>) -> nat
    decreases rs.len(),
{
    if rs.len() == 0 {
        0
    } else {
        (if rs[0] == BuildReaderRes::IgnoreAndSkipData { 1nat } else { 0nat }) + count_skips(rs.drop_first())
    }
}

/// `n` padding bytes.
pub open spec fn padding(n: nat) -> Seq<u8> {
    Seq::new(n, |i: int| INVALID_BYTE)
}

/// One frame as the controller may send it.
pub struct FrameSpec {
    /// Padding before the first address byte.
    pub lead: nat,
    /// Padding between the address bytes.
    pub mid: nat,
    pub address: u16,
    pub payload: Seq<u8>,
    pub end_marker: u8,
}

/// The frame can be sent: its address bytes are not padding and its
/// payload length fits the length byte.
pub open spec fn frame_ok(f: FrameSpec) -> bool {
    &&& (f.address % 256) as u8 != INVALID_BYTE
    &&& (f.address / 256) as u8 != INVALID_BYTE
    &&& f.payload.len() <= 255
}

/// The bytes of frame `f` on the bus.
pub open spec fn encode_frame(f: FrameSpec) -> Seq<u8> {
    padding(f.lead) + seq![(f.address % 256) as u8] + padding(f.mid) + seq![
        (f.address / 256) as u8,
        f.payload.len() as u8,
    ] + f.payload + seq![f.end_marker]
}

/// The bytes of frames `fs`, one after the other.
pub open spec fn encode_frames(fs: Seq<FrameSpec>) -> Seq<u8>
    decreases fs.len(),
{
    if fs.len() == 0 {
        Seq::empty()
    } else {
        encode_frames(fs.drop_last()) + encode_frame(fs.last())
    }
}

/// The line the decoder should report for frame `f`.
pub open spec fn expected_line(f: FrameSpec) -> Line {
    Line { address: f.address as int, payload: f.payload, end_marker: f.end_marker }
}

/// Feeding `a` then `b` is feeding `a + b`.
pub proof fn lemma_feed_append(v: DecoderView, a: Seq<u8>, b: Seq<u8>)
    ensures
        feed(v, a + b) == (Fed {
            results: feed(v, a).results + feed(feed(v, a).state, b).results,
            lines: feed(v, a).lines + feed(feed(v, a).state, b).lines,
            state: feed(feed(v, a).state, b).state,
        }),
    decreases a.len(),
{
    if a.len() == 0 {
        assert(a + b =~= b);
        assert(feed(v, a).results + feed(v, b).results =~= feed(v, b).results);
        assert(feed(v, a).lines + feed(v, b).lines =~= feed(v, b).lines);
    } else {
        assert((a + b)[0] == a[0]);
        assert((a + b).drop_first() =~= a.drop_first() + b);
        let r = step_result(v, a[0]);
        let v1 = step_view(v, a[0]);
        let next = if r == BuildReaderRes::EndLine { initial_view() } else { v1 };
        lemma_feed_append(next, a.drop_first(), b);
        let fa = feed(next, a.drop_first());
        let fb = feed(fa.state, b);
        assert(seq![r] + (fa.results + fb.results) =~= (seq![r] + fa.results) + fb.results);
        if r == BuildReaderRes::EndLine {
            assert(seq![line_of(v1.accepted)] + (fa.lines + fb.lines) =~= (seq![line_of(v1.accepted)] + fa.lines) + fb.lines);
        }
    }
}

/// Each `EndLine` answer comes with one reported line.
pub proof fn lemma_end_lines_match_lines(v: DecoderView, bytes: Seq<u8>)
    ensures
        count_end_lines(feed(v, bytes).results) == feed(v, bytes).lines.len(),
    decreases bytes.len(),
{
    if bytes.len() > 0 {
        let r = step_result(v, bytes[0]);
        let v1 = step_view(v, bytes[0]);
        let next = if r == BuildReaderRes::EndLine { initial_view() } else { v1 };
        lemma_end_lines_match_lines(next, bytes.drop_first());
        assert((seq![r] + feed(next, bytes.drop_first()).results).drop_first() =~= feed(
            next,
            bytes.drop_first(),
        ).results);
    }
}

/// Writing one byte.
proof fn lemma_feed_one(v: DecoderView, b: u8)
    ensures
        feed(v, seq![b]).results == seq![step_result(v, b)],
        step_result(v, b) == BuildReaderRes::EndLine ==> feed(v, seq![b]).lines == seq![
            line_of(step_view(v, b).accepted),
        ] && feed(v, seq![b]).state == initial_view(),
        step_result(v, b) != BuildReaderRes::EndLine ==> feed(v, seq![b]).lines == Seq::<Line>::empty()
            && feed(v, seq![b]).state == step_view(v, b),
{
    let e = seq![b].drop_first();
    assert(e =~= Seq::<u8>::empty());
    let r = step_result(v, b);
    let v1 = step_view(v, b);
    let next = if r == BuildReaderRes::EndLine { initial_view() } else { v1 };
    assert(feed(next, e).results =~= Seq::<BuildReaderRes>::empty());
    assert(feed(next, e).lines =~= Seq::<Line>::empty());
    assert(feed(next, e).state == next);
    assert(seq![r] + feed(next, e).results =~= seq![r]);
    assert(seq![line_of(v1.accepted)] + feed(next, e).lines =~= seq![line_of(v1.accepted)]);
}

/// Padding while an address byte is awaited reports nothing and keeps the
/// address bytes taken so far.
proof fn lemma_feed_padding(v: DecoderView, n: nat)
    requires
        v.accepted.len() < 2,
        view_ok(v),
    ensures
        feed(v, padding(n)).lines == Seq::<Line>::empty(),
        feed(v, padding(n)).state.accepted == v.accepted,
        view_ok(feed(v, padding(n)).state),
    decreases n,
{
    if n > 0 {
        let v1 = step_view(v, INVALID_BYTE);
        assert(padding(n).drop_first() =~= padding((n - 1) as nat));
        lemma_feed_padding(v1, (n - 1) as nat);
    }
}

/// Payload bytes report nothing and are taken in.
proof fn lemma_feed_payload(v: DecoderView, p: Seq<u8>)
    requires
        v.accepted.len() >= 3,
        v.accepted.len() + p.len() + 1 == 4 + v.accepted[2],
        view_ok(v),
    ensures
        feed(v, p).lines == Seq::<Line>::empty(),
        feed(v, p).state.accepted == v.accepted + p,
        view_ok(feed(v, p).state),
    decreases p.len(),
{
    if p.len() == 0 {
        assert(v.accepted + p =~= v.accepted);
    } else {
        let v1 = step_view(v, p[0]);
        assert(v1.accepted == v.accepted.push(p[0]));
        lemma_feed_payload(v1, p.drop_first());
        assert(v.accepted.push(p[0]) + p.drop_first() =~= v.accepted + p);
    }
}

/// One whole frame, from a decoder with nothing taken in, reports its line
/// and leaves the decoder cleared.
proof fn lemma_feed_frame(v: DecoderView, f: FrameSpec)
    requires
        v.accepted.len() == 0,
        view_ok(v),
        frame_ok(f),
    ensures
        feed(v, encode_frame(f)).lines == seq![expected_line(f)],
        feed(v, encode_frame(f)).state == initial_view(),
        forall|k: nat| k < encode_frame(f).len() ==> (#[trigger] feed(v, encode_frame(f).take(k as int))).lines
            == Seq::<Line>::empty(),
{
    let a0 = (f.address % 256) as u8;
    let a1 = (f.address / 256) as u8;
    let len = f.payload.len() as u8;
    let upto_lo = padding(f.lead);
    let with_lo = upto_lo + seq![a0];
    let upto_hi = with_lo + padding(f.mid);
    let with_len = upto_hi + seq![a1, len];
    let with_payload = with_len + f.payload;
    assert(encode_frame(f) == with_payload + seq![f.end_marker]);
    lemma_feed_padding(v, f.lead);
    let s1 = feed(v, upto_lo).state;
    lemma_feed_append(v, upto_lo, seq![a0]);
    lemma_feed_one(s1, a0);
    let s2 = feed(v, with_lo).state;
    assert(s2.accepted == seq![a0]);
    lemma_feed_append(v, with_lo, padding(f.mid));
    lemma_feed_padding(s2, f.mid);
    let s3 = feed(v, upto_hi).state;
    assert(seq![a1, len] == seq![a1] + seq![len]);
    lemma_feed_append(s3, seq![a1], seq![len]);
    lemma_feed_one(s3, a1);
    let s3b = step_view(s3, a1);
    lemma_feed_one(s3b, len);
    lemma_feed_append(v, upto_hi, seq![a1, len]);
    let s4 = feed(v, with_len).state;
    assert(s4.accepted == seq![a0, a1, len]);
    lemma_feed_append(v, with_len, f.payload);
    lemma_feed_payload(s4, f.payload);
    let s5 = feed(v, with_payload).state;
    let acc = seq![a0, a1, len] + f.payload;
    assert(s5.accepted == acc);
    assert(awaits_end_marker(acc));
    lemma_feed_append(v, with_payload, seq![f.end_marker]);
    lemma_feed_one(s5, f.end_marker);
    let fin = acc.push(f.end_marker);
    assert(fin.subrange(3, fin.len() - 1) =~= f.payload);
    assert(line_of(fin) == expected_line(f));
    assert(feed(v, upto_lo).lines + feed(s1, seq![a0]).lines =~= Seq::<Line>::empty());
    assert(feed(s3, seq![a1, len]).lines =~= Seq::<Line>::empty());
    assert(feed(v, with_len).lines =~= Seq::<Line>::empty());
    assert(feed(v, with_payload).lines =~= Seq::<Line>::empty());
    assert(feed(v, encode_frame(f)).lines =~= seq![expected_line(f)]);
    assert forall|k: nat| k < encode_frame(f).len() implies (#[trigger] feed(v, encode_frame(f).take(k as int))).lines
        == Seq::<Line>::empty() by {
        assert(encode_frame(f).take(k as int) =~= with_payload.take(k as int));
        lemma_quiet_prefix(v, with_payload, k);
    }
}

/// A run of writes that reports no line reports none over any of its prefixes.
proof fn lemma_quiet_prefix(v: DecoderView, bytes: Seq<u8>, k: nat)
    requires
        k <= bytes.len(),
        feed(v, bytes).lines == Seq::<Line>::empty(),
    ensures
        feed(v, bytes.take(k as int)).lines == Seq::<Line>::empty(),
{
    assert(bytes =~= bytes.take(k as int) + bytes.skip(k as int));
    lemma_feed_append(v, bytes.take(k as int), bytes.skip(k as int));
    assert(feed(v, bytes.take(k as int)).lines.len() == 0);
}

/// Whole frames, one after the other, are each reported once, in order.
proof fn lemma_whole_frames(fs: Seq<FrameSpec>)
    requires
        forall|i: int| 0 <= i < fs.len() ==> frame_ok(#[trigger] fs[i]),
    ensures
        count_end_lines(feed(initial_view(), encode_frames(fs)).results) == fs.len(),
        feed(initial_view(), encode_frames(fs)).lines == fs.map_values(|f: FrameSpec| expected_line(f)),
        feed(initial_view(), encode_frames(fs)).state == initial_view(),
    decreases fs.len(),
{
    let v = initial_view();
    if fs.len() == 0 {
        assert(fs.map_values(|f: FrameSpec| expected_line(f)) =~= Seq::<Line>::empty());
    } else {
        let init = fs.drop_last();
        assert forall|i: int| 0 <= i < init.len() implies frame_ok(#[trigger] init[i]) by {
            assert(init[i] == fs[i]);
        }
        lemma_whole_frames(init);
        lemma_feed_append(v, encode_frames(init), encode_frame(fs.last()));
        assert(frame_ok(fs[fs.len() - 1]));
        lemma_feed_frame(v, fs.last());
        assert(init.map_values(|f: FrameSpec| expected_line(f)) + seq![expected_line(fs.last())]
            =~= fs.map_values(|f: FrameSpec| expected_line(f)));
    }
    lemma_end_lines_match_lines(v, encode_frames(fs));
}

/// Frame decoding: fed the bytes of any sequence of frames, padding
/// included, and then any unfinished start of one more frame, and cleared
/// after each completed frame, the decoder answers `EndLine` exactly once
/// per whole frame, and the line it reports each time is that frame's
/// address, payload and end marker, in order.
pub proof fn lemma_frames_decoded(fs: Seq<FrameSpec>, next: FrameSpec, cut: nat)
    requires
        forall|i: int| 0 <= i < fs.len() ==> frame_ok(#[trigger] fs[i]),
        frame_ok(next),
        cut < encode_frame(next).len(),
    ensures
        count_end_lines(feed(initial_view(), encode_frames(fs) + encode_frame(next).take(cut as int)).results)
            == fs.len(),
        feed(initial_view(), encode_frames(fs) + encode_frame(next).take(cut as int)).lines == fs.map_values(
            |f: FrameSpec| expected_line(f),
        ),
{
    let v = initial_view();
    let tail = encode_frame(next).take(cut as int);
    lemma_whole_frames(fs);
    lemma_feed_append(v, encode_frames(fs), tail);
    lemma_feed_frame(v, next);
    assert(feed(v, tail).lines == Seq::<Line>::empty());
    assert(feed(v, encode_frames(fs)).lines + feed(v, tail).lines =~= feed(v, encode_frames(fs)).lines);
    lemma_end_lines_match_lines(v, encode_frames(fs) + tail);
}

/// Skip answers add up over consecutive runs.
proof fn lemma_count_skips_append(a: Seq<BuildReaderRes>, b: Seq<BuildReaderRes>)
    ensures
        count_skips(a + b) == count_skips(a) + count_skips(b),
    decreases a.len(),
{
    if a.len() == 0 {
        assert(a + b =~= b);
    } else {
        assert((a + b).drop_first() =~= a.drop_first() + b);
        lemma_count_skips_append(a.drop_first(), b);
    }
}

/// Padding below the threshold only counts the run up.
proof fn lemma_padding_below_threshold(v: DecoderView, n: nat)
    requires
        v.accepted.len() < 2,
        v.filler_run + n < SKIP_THRESHOLD,
    ensures
        count_skips(feed(v, padding(n)).results) == 0,
        feed(v, padding(n)).state == (DecoderView { accepted: v.accepted, filler_run: v.filler_run + n }),
    decreases n,
{
    if n > 0 {
        let v1 = step_view(v, INVALID_BYTE);
        assert(padding(n).drop_first() =~= padding((n - 1) as nat));
        lemma_padding_below_threshold(v1, (n - 1) as nat);
        let rest = feed(v1, padding((n - 1) as nat)).results;
        assert((seq![BuildReaderRes::Ignore] + rest).drop_first() =~= rest);
    }
}

/// A flood of padding: while an address byte is awaited with no padding
/// counted yet, 200 padding bytes give exactly one `IgnoreAndSkipData`, at
/// the last byte, and leave the decoder as it was, with the run count back
/// at zero; so 200 more give exactly one more.
pub proof fn lemma_padding_flood(v: DecoderView)
    requires
        v.accepted.len() < 2,
        v.filler_run == 0,
    ensures
        count_skips(feed(v, padding(200)).results) == 1,
        feed(v, padding(200)).results.last() == BuildReaderRes::IgnoreAndSkipData,
        feed(v, padding(200)).state == v,
        count_skips(feed(v, padding(200) + padding(200)).results) == 2,
{
    assert(padding(200) =~= padding(199) + seq![INVALID_BYTE]);
    lemma_padding_below_threshold(v, 199);
    let s199 = feed(v, padding(199)).state;
    lemma_feed_append(v, padding(199), seq![INVALID_BYTE]);
    lemma_feed_one(s199, INVALID_BYTE);
    let last = seq![BuildReaderRes::IgnoreAndSkipData];
    assert(step_result(s199, INVALID_BYTE) == BuildReaderRes::IgnoreAndSkipData);
    lemma_count_skips_append(feed(v, padding(199)).results, last);
    assert(count_skips(last) == 1) by {
        assert(last.drop_first() =~= Seq::<BuildReaderRes>::empty());
        assert(count_skips(last.drop_first()) == 0);
    }
    lemma_feed_append(v, padding(200), padding(200));
    lemma_count_skips_append(feed(v, padding(200)).results, feed(v, padding(200)).results);
}

/// Replaying after `clear`: two decoders that `clear` has left as it
/// leaves every decoder, whatever each took in before, answer any byte
/// sequence with the same answers and the same lines.
pub proof fn lemma_replay_after_clear(first: BuildReader, second: BuildReader, bytes: Seq<u8>)
    requires
        first@ == initial_view(),
        second@ == initial_view(),
    ensures
        feed(first@, bytes).results == feed(second@, bytes).results,
        feed(first@, bytes).lines == feed(second@, bytes).lines,
{
}

} // verus!
