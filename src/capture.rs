use vstd::prelude::*;

use crate::device::actions_of_free;
use crate::device::actions_of_move;
use crate::device::state_after_drop;
use crate::device::state_after_free;
use crate::device::state_after_move;
use crate::device::DeviceView;
use crate::device::HostAction;
use crate::device::InputDevice;
use crate::model::initial_view;
use crate::model::line_end;
use crate::model::line_payload;
use crate::model::record_at;
use crate::model::record_count;
use crate::model::step_result;
use crate::model::step_view;
use crate::model::BuildReader;
use crate::model::BuildReaderRes;
use crate::model::DecoderView;
use crate::model::Reader;
use crate::model::TouchChunk;

verus! {

/// Finger id packed in a record: its second byte less 16, wrapping as an `i8`.
pub open spec fn record_id(c: Seq<u8>) -> i8 {
    let v = (c[1] as int - 16) % 256;
    if v >= 128 {
        (v - 256) as i8
    } else {
        v as i8
    }
}

/// Panel x of a record: third byte, with the low nibble of the fourth above it.
pub open spec fn record_x(c: Seq<u8>) -> u16 {
    (c[2] as int + 256 * ((c[3] & 0x0F) as int)) as u16
}

/// Panel y of a record: fifth byte, with the high nibble of the fourth above
/// it, shifted left by four within sixteen bits.
pub open spec fn record_y(c: Seq<u8>) -> u16 {
    (((c[4] as int + 256 * ((c[3] & 0xF0) as int)) * 16) % 65536) as u16
}

/// Finger id and panel position carried by a touch record.
#[derive(Debug, Clone, Copy, PartialEq, Eq, Structural)]
pub struct TouchPoint {
    pub id: i8,
    pub x: u16,
    pub y: u16,
}

/// Unpacks a touch record.
pub fn decode_record(c: &TouchChunk) -> (r: TouchPoint)
    ensures
        r.id == record_id(c@),
        r.x == record_x(c@),
        r.y == record_y(c@),
{
    let b1 = c[1];
    let id: i8 = if b1 >= 16 {
        let v = b1 - 16;
        if v >= 128 {
            (v as i16 - 256) as i8
        } else {
            v as i8
        }
    } else {
        (b1 as i16 - 16) as i8
    };
    let b3 = c[3];
    let lo = b3 & 0x0F;
    let hi = b3 & 0xF0;
    assert(b3 & 0x0F <= 0x0F) by (bit_vector);
    assert(b3 & 0xF0 <= 0xF0) by (bit_vector);
    let x: u16 = c[2] as u16 + 256 * lo as u16;
    let wide: u32 = (c[4] as u32 + 256 * hi as u32) * 16;
    let y: u16 = (wide % 65536) as u16;
    TouchPoint { id, x, y }
}

/// Device state and host calls after the first `n` records of a frame
/// with payload `p` and end marker `end`; each record moves a finger when
/// the end marker is `0`, and advances the write cursor in any case.
pub open spec fn dispatch_records(v: DeviceView, p: Seq<u8>, end: u8, n: nat) -> (DeviceView, Seq<HostAction>)
    decreases n,
{
    if n == 0 {
        (v, Seq::empty())
    } else {
        let (v1, a1) = dispatch_records(v, p, end, (n - 1) as nat);
        let c = record_at(p, n - 1);
        if end == 0 {
            (
                state_after_drop(state_after_move(v1, record_id(c), record_x(c), record_y(c))),
                a1 + actions_of_move(v1, record_id(c), record_x(c), record_y(c)),
            )
        } else {
            (state_after_drop(v1), a1)
        }
    }
}

/// Device state and host calls after one complete frame: its records, or
/// a lift of all fingers when it carries none.
pub open spec fn dispatch_frame_spec(v: DeviceView, p: Seq<u8>, end: u8) -> (DeviceView, Seq<HostAction>) {
    if record_count(p) == 0 {
        (state_after_free(v), actions_of_free(v))
    } else {
        dispatch_records(v, p, end, record_count(p))
    }
}

/// Where a capture cycle stands after some of the bytes of a read.
pub struct CycleView {
    pub decoder: DecoderView,
    pub device: DeviceView,
    pub actions: Seq<HostAction>,
    /// More data is likely waiting: read again at once.
    pub read_again: bool,
    /// A long run of padding ended the read early.
    pub stopped: bool,
}

/// One byte of a read.
pub open spec fn cycle_step(c: CycleView, b: u8) -> CycleView {
    let r = step_result(c.decoder, b);
    let d = step_view(c.decoder, b);
    if r == BuildReaderRes::EndLine {
        let p = line_payload(d.accepted);
        let (dev, acts) = dispatch_frame_spec(c.device, p, line_end(d.accepted));
        CycleView {
            decoder: initial_view(),
            device: dev,
            actions: c.actions + acts,
            read_again: record_count(p) > 0,
            stopped: false,
        }
    } else if r == BuildReaderRes::Continue {
        CycleView { decoder: d, read_again: true, ..c }
    } else if r == BuildReaderRes::IgnoreAndSkipData {
        CycleView { decoder: d, read_again: false, stopped: true, ..c }
    } else {
        CycleView { decoder: d, ..c }
    }
}

/// The cycle after the first `n` bytes of `bytes`, stopping at a long run of padding.
pub open spec fn cycle_prefix(start: CycleView, bytes: Seq<u8>, n: nat) -> CycleView
    decreases n,
{
    if n == 0 {
        start
    } else {
        let c = cycle_prefix(start, bytes, (n - 1) as nat);
        if c.stopped {
            c
        } else {
            cycle_step(c, bytes[n - 1])
        }
    }
}

/// How a cycle starts from the given decoder and device states.
pub open spec fn cycle_start(d: DecoderView, v: DeviceView) -> CycleView {
    CycleView { decoder: d, device: v, actions: Seq::empty(), read_again: false, stopped: false }
}

/// A whole read run through the cycle.
pub open spec fn run_read(d: DecoderView, v: DeviceView, bytes: Seq<u8>) -> CycleView {
    cycle_prefix(cycle_start(d, v), bytes, bytes.len())
}

/// Once a long run of padding has ended a read, later bytes change nothing.
proof fn lemma_stopped_stays(start: CycleView, bytes: Seq<u8>, n: nat, m: nat)
    requires
        n <= m,
        cycle_prefix(start, bytes, n).stopped,
    ensures
        cycle_prefix(start, bytes, m) == cycle_prefix(start, bytes, n),
    decreases m - n,
{
    if m > n {
        lemma_stopped_stays(start, bytes, n, (m - 1) as nat);
    }
}

/// Hands the records of one complete frame to the device; returns the
/// host calls to make.
pub fn dispatch_frame(device: &mut InputDevice, address: u16, payload: &[u8], end_marker: u8) -> (r: Vec<HostAction>)
    requires
        old(device).wf(),
    ensures
        final(device).wf(),
        (final(device)@, r@) == dispatch_frame_spec(old(device)@, payload@, end_marker),
{
    let records = Reader::search(payload);
    if records.len() == 0 {
        return device.free_time();
    }
    let mut out: Vec<HostAction> = Vec::new();
    let mut k: usize = 0;
    while k < records.len()
        invariant
            device.wf(),
            k <= records@.len(),
            records@.len() == record_count(payload@),
            forall|i: int| 0 <= i < records@.len() ==> (#[trigger] records@[i])@ == record_at(payload@, i),
            (device@, out@) == dispatch_records(old(device)@, payload@, end_marker, k as nat),
        decreases records@.len() - k,
    {
        if end_marker == 0 {
            let pt = decode_record(&records[k]);
            let mut acts = device.push_move(address, pt.id, pt.x, pt.y);
            out.append(&mut acts);
        }
        device.drop_event();
        k = k + 1;
    }
    out
}

/// Runs the bytes of one bus read through the decoder and the device.
/// Returns the host calls to make, and whether to read again at once
/// rather than wait for the next tick.
pub fn process_read(decoder: &mut BuildReader, device: &mut InputDevice, data: &[u8]) -> (r: (Vec<HostAction>, bool))
    requires
        old(decoder).inv(),
        old(device).wf(),
    ensures
        final(decoder).inv(),
        final(device).wf(),
        final(decoder)@ == run_read(old(decoder)@, old(device)@, data@).decoder,
        final(device)@ == run_read(old(decoder)@, old(device)@, data@).device,
        r.0@ == run_read(old(decoder)@, old(device)@, data@).actions,
        r.1 == run_read(old(decoder)@, old(device)@, data@).read_again,
{
    let ghost start = cycle_start(decoder@, device@);
    let mut out: Vec<HostAction> = Vec::new();
    let mut again = false;
    let mut stopped = false;
    let mut i: usize = 0;
    while i < data.len() && !stopped
        invariant
            decoder.inv(),
            device.wf(),
            i <= data@.len(),
            start == cycle_start(old(decoder)@, old(device)@),
            cycle_prefix(start, data@, i as nat) == (CycleView {
                decoder: decoder@,
                device: device@,
                actions: out@,
                read_again: again,
                stopped,
            }),
        decreases data@.len() - i,
    {
        let ghost before = out@;
        let res = decoder.write(data[i]);
        match res {
            BuildReaderRes::EndLine => {
                let (address, line, endb) = decoder.get_line();
                let mut acts = dispatch_frame(device, address, line, endb);
                again = line.len() >= 8 && line[0] == 0;
                out.append(&mut acts);
                decoder.clear();
            },
            BuildReaderRes::Continue => {
                again = true;
            },
            BuildReaderRes::IgnoreAndSkipData => {
                again = false;
                stopped = true;
            },
            BuildReaderRes::Ignore => {},
        }
        i = i + 1;
    }
    proof {
        if stopped {
            lemma_stopped_stays(start, data@, i as nat, data@.len());
        }
    }
    (out, again)
}

} // verus!
