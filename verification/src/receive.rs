//! The receiving side of the control channel: the state the receive loop
//! keeps between the pieces of bytes the connection hands it, and what it
//! does with each piece.
//!
//! The loop keeps the last piece read, how many bytes it holds and how far
//! it has been read, and whether it is collecting a six-byte header or a
//! payload. Given a piece, it takes it in as the read it was waiting for
//! and runs on until it needs the next piece, sending each message it
//! completes on the way.

use vstd::prelude::*;
use crate::frame::{
    be16_at, be16_bytes, be32_at, be32_bytes, frame_bytes, lemma_be16_roundtrip, lemma_be32_roundtrip,
    METADATA_SIZE,
};
use crate::parser::{short_header_text, MumbleParser};

verus! {

/// Where the receive loop stands: collecting a header (`n` counts the
/// bytes it has taken toward it, `meta` holds them) or a payload.
pub enum PhaseModel {
    Header { n: nat, meta: Seq<u8> },
    Payload { kind: u16, len: nat, payload: Seq<u8> },
}

/// The state of the receive loop: the last piece read, the number of bytes
/// counted as held in it, how far it has been read, and the phase.
pub struct StreamModel {
    pub tmp: Seq<u8>,
    pub size: nat,
    pub last: nat,
    pub phase: PhaseModel,
}

/// How a run of the receive loop ends: waiting for the next piece, or
/// stopped on a header it cannot read, with the error text.
pub enum StopModel {
    Paused,
    Failed(Seq<char>),
}

/// One step of the receive loop: it waits for the next piece, it would
/// panic, it stops on an error, or it moves on, perhaps sending a message.
pub enum StepModel {
    Pause,
    Panic,
    Fail(Seq<char>),
    Next(StreamModel, Option<(u16, Seq<u8>)>),
}

/// The smaller of two numbers.
pub open spec fn min_nat(a: nat, b: nat) -> nat {
    if a <= b {
        a
    } else {
        b
    }
}

/// The state in which the loop starts: nothing read, waiting for a header.
pub open spec fn initial_stream() -> StreamModel {
    StreamModel {
        tmp: Seq::empty(),
        size: 0,
        last: 0,
        phase: PhaseModel::Header { n: 0, meta: Seq::empty() },
    }
}

/// Whether the loop is between messages: at the start of a header with
/// nothing of it taken.
pub open spec fn between_messages(m: StreamModel) -> bool {
    m.phase == PhaseModel::Header { n: 0, meta: Seq::<u8>::empty() }
}

/// How many counted bytes of the piece are not read yet.
pub open spec fn unread(m: StreamModel) -> nat {
    if m.size > m.last {
        (m.size - m.last) as nat
    } else {
        0
    }
}

/// Orders the phases so that each step that reads nothing moves down.
pub open spec fn phase_rank(m: StreamModel) -> nat {
    match m.phase {
        PhaseModel::Header { n, .. } => if n >= 6 {
            2
        } else {
            0
        },
        PhaseModel::Payload { .. } => 1,
    }
}

/// One step of the receive loop from state `m`.
///
/// - Collecting a header with fewer than six bytes counted: when the piece
///   is read up to its counted size it waits; otherwise it takes up to six
///   more bytes of the piece.
/// - With six or more counted: it reads the kind and length from the
///   header (an error when fewer than six bytes were collected) and takes
///   as much of the payload as the piece holds.
/// - Collecting a payload: once it has at least the announced length it
///   sends the message and starts a new header; otherwise, when the piece is
///   read up to its counted size it waits, and else it takes the bytes from
///   the read position up to the position numbered by the amount it may
///   take, and moves the read position on by that amount.
///
/// `Panic` stands for the out-of-range slices and integer overflows of
/// these steps.
pub open spec fn step(m: StreamModel) -> StepModel {
    match m.phase {
        PhaseModel::Header { n, meta } => {
            if n < 6 {
                if m.size <= m.last {
                    StepModel::Pause
                } else {
                    let read = min_nat(6, (m.size - m.last) as nat);
                    let end = m.last + read;
                    if end > m.tmp.len() {
                        StepModel::Panic
                    } else {
                        StepModel::Next(
                            StreamModel {
                                tmp: m.tmp,
                                size: m.size,
                                last: end,
                                phase: PhaseModel::Header {
                                    n: n + read,
                                    meta: meta + m.tmp.subrange(m.last as int, end as int),
                                },
                            },
                            None,
                        )
                    }
                }
            } else if meta.len() < 6 {
                StepModel::Fail(short_header_text(meta))
            } else if m.size < m.last {
                StepModel::Panic
            } else {
                let len = be32_at(meta, 2) as nat;
                let take = min_nat(len, (m.size - m.last) as nat);
                let end = m.last + take;
                if end > m.tmp.len() {
                    StepModel::Panic
                } else {
                    StepModel::Next(
                        StreamModel {
                            tmp: m.tmp,
                            size: m.size,
                            last: end,
                            phase: PhaseModel::Payload {
                                kind: be16_at(meta, 0) as u16,
                                len,
                                payload: m.tmp.subrange(m.last as int, end as int),
                            },
                        },
                        None,
                    )
                }
            }
        },
        PhaseModel::Payload { kind, len, payload } => {
            if payload.len() >= len {
                StepModel::Next(
                    StreamModel {
                        tmp: m.tmp,
                        size: m.size,
                        last: m.last,
                        phase: PhaseModel::Header { n: 0, meta: Seq::empty() },
                    },
                    Some((kind, payload)),
                )
            } else if m.size <= m.last {
                StepModel::Pause
            } else {
                let take = min_nat(len, (m.size - m.last) as nat);
                if m.last > take || take > m.tmp.len() || m.last + take > usize::MAX {
                    StepModel::Panic
                } else {
                    StepModel::Next(
                        StreamModel {
                            tmp: m.tmp,
                            size: m.size,
                            last: m.last + take,
                            phase: PhaseModel::Payload {
                                kind,
                                len,
                                payload: payload + m.tmp.subrange(m.last as int, take as int),
                            },
                        },
                        None,
                    )
                }
            }
        },
    }
}

/// Each step that moves on reads more of the piece, or reads as much and
/// moves down the phase order.
pub proof fn lemma_step_decreases(m: StreamModel)
    ensures
        step(m) matches StepModel::Next(m2, _) ==> (unread(m2) < unread(m) || (unread(m2) == unread(
            m,
        ) && phase_rank(m2) < phase_rank(m))),
{
}

/// The message a step sends, as a list of at most one.
pub open spec fn sent_by(f: Option<(u16, Seq<u8>)>) -> Seq<(u16, Seq<u8>)> {
    match f {
        Some(x) => seq![x],
        None => Seq::empty(),
    }
}

/// Runs the receive loop from `m`, after the messages `sent`, until it
/// waits or stops: the messages sent, how it ended and the state it ended
/// in; `None` when it would panic on the way.
pub open spec fn drive(m: StreamModel, sent: Seq<(u16, Seq<u8>)>) -> Option<
    (Seq<(u16, Seq<u8>)>, StopModel, StreamModel),
>
    decreases unread(m), phase_rank(m),
{
    match step(m) {
        StepModel::Pause => Some((sent, StopModel::Paused, m)),
        StepModel::Panic => None,
        StepModel::Fail(e) => Some((sent, StopModel::Failed(e), m)),
        StepModel::Next(m2, f) => {
            proof {
                lemma_step_decreases(m);
            }
            drive(m2, sent + sent_by(f))
        },
    }
}

/// Takes in `chunk` as the read the loop waits for in state `m`.
///
/// - Collecting a header: the piece replaces the last one, the read
///   position goes back to 0, the count `n` grows by the piece's length,
///   the read position moves to the smaller of what the header still needs
///   and the new count, the counted size becomes the new count less the
///   header bytes already collected, and the bytes up to the read position
///   join the header.
/// - Collecting a payload: the piece replaces the last one and the whole
///   piece joins the payload; size and read position stay.
///
/// `None` for the out-of-range slices and integer overflows of this step.
pub open spec fn resume(m: StreamModel, chunk: Seq<u8>) -> Option<StreamModel> {
    match m.phase {
        PhaseModel::Header { n, meta } => {
            let n2 = n + chunk.len();
            if n2 > usize::MAX || meta.len() > 6 || n2 < meta.len() {
                None
            } else {
                let last = min_nat((6 - meta.len()) as nat, n2);
                if last > chunk.len() {
                    None
                } else {
                    Some(
                        StreamModel {
                            tmp: chunk,
                            size: (n2 - meta.len()) as nat,
                            last,
                            phase: PhaseModel::Header {
                                n: n2,
                                meta: meta + chunk.subrange(0, last as int),
                            },
                        },
                    )
                }
            }
        },
        PhaseModel::Payload { kind, len, payload } => Some(
            StreamModel {
                tmp: chunk,
                size: m.size,
                last: m.last,
                phase: PhaseModel::Payload { kind, len, payload: payload + chunk },
            },
        ),
    }
}

/// What the receive loop does with one piece in state `m`: the messages it
/// sends, how it ends and its new state; `None` when it would panic.
pub open spec fn receive(m: StreamModel, chunk: Seq<u8>) -> Option<
    (Seq<(u16, Seq<u8>)>, StopModel, StreamModel),
> {
    match resume(m, chunk) {
        None => None,
        Some(m1) => drive(m1, Seq::empty()),
    }
}


/// The bytes of a list of messages framed one after another.
pub open spec fn frames_bytes(fs: Seq<(u16, Seq<u8>)>) -> Seq<u8>
    decreases fs.len(),
{
    if fs.len() == 0 {
        Seq::empty()
    } else {
        frame_bytes(fs[0].0, fs[0].1) + frames_bytes(fs.drop_first())
    }
}

/// Whether every payload of a list fits the 32-bit length of a header.
pub open spec fn frames_fit(fs: Seq<(u16, Seq<u8>)>) -> bool {
    forall|i: int| 0 <= i < fs.len() ==> #[trigger] fs[i].1.len() <= u32::MAX
}

/// The state the loop is left in after a piece it read to the end, between
/// messages.
pub open spec fn done_with(chunk: Seq<u8>) -> StreamModel {
    StreamModel {
        tmp: chunk,
        size: chunk.len(),
        last: chunk.len(),
        phase: PhaseModel::Header { n: 0, meta: Seq::empty() },
    }
}

/// How the header and payload of a framed message lie in its bytes.
proof fn lemma_frame_parts(kind: u16, payload: Seq<u8>)
    requires
        payload.len() <= u32::MAX,
    ensures
        frame_bytes(kind, payload).len() == 6 + payload.len(),
        be16_at(frame_bytes(kind, payload).subrange(0, 6), 0) == kind,
        be32_at(frame_bytes(kind, payload).subrange(0, 6), 2) == payload.len(),
        frame_bytes(kind, payload).subrange(6, 6 + payload.len() as int) == payload,
{
    let f = frame_bytes(kind, payload);
    lemma_be16_roundtrip(kind);
    lemma_be32_roundtrip(payload.len() as u32);
    let h = f.subrange(0, 6);
    assert(h[0] == be16_bytes(kind)[0] && h[1] == be16_bytes(kind)[1]);
    assert(h[2] == be32_bytes(payload.len() as u32)[0]);
    assert(h[3] == be32_bytes(payload.len() as u32)[1]);
    assert(h[4] == be32_bytes(payload.len() as u32)[2]);
    assert(h[5] == be32_bytes(payload.len() as u32)[3]);
    assert(f.subrange(6, 6 + payload.len() as int) =~= payload);
}

/// Between messages, with the rest of the piece made of whole framed
/// messages, the loop sends each of them in order and waits at the end of
/// the piece.
proof fn lemma_drive_whole_frames(m: StreamModel, sent: Seq<(u16, Seq<u8>)>, fs: Seq<(u16, Seq<u8>)>)
    requires
        between_messages(m),
        m.last <= m.tmp.len(),
        m.size == m.tmp.len(),
        m.tmp.subrange(m.last as int, m.tmp.len() as int) == frames_bytes(fs),
        frames_fit(fs),
    ensures
        drive(m, sent) == Some((sent + fs, StopModel::Paused, done_with(m.tmp))),
    decreases fs.len(),
{
    let t = m.tmp;
    if fs.len() == 0 {
        assert(m.last == m.size);
        assert(m == done_with(t));
        assert(step(m) == StepModel::Pause);
        assert(sent + fs =~= sent);
    } else {
        let f = fs[0];
        let rest = fs.drop_first();
        assert(f.1.len() <= u32::MAX);
        lemma_frame_parts(f.0, f.1);
        let fb = frame_bytes(f.0, f.1);
        let len = f.1.len();
        let r = t.subrange(m.last as int, t.len() as int);
        assert(r == fb + frames_bytes(rest));
        let l0 = m.last;
        let header = t.subrange(l0 as int, l0 + 6int);
        assert(header =~= fb.subrange(0, 6));
        let m1 = StreamModel {
            tmp: t,
            size: m.size,
            last: l0 + 6,
            phase: PhaseModel::Header { n: 6, meta: Seq::<u8>::empty() + header },
        };
        assert(Seq::<u8>::empty() + header =~= header);
        assert(step(m) == StepModel::Next(m1, None));
        let body = t.subrange(l0 + 6int, l0 + 6int + len as int);
        assert(body =~= f.1) by {
            assert forall|i: int| 0 <= i < len implies body[i] == f.1[i] by {
                assert(body[i] == r[6 + i]);
                assert(r[6 + i] == fb[6 + i]);
                assert(fb.subrange(6, 6 + len as int)[i] == fb[6 + i]);
            }
        }
        let m2 = StreamModel {
            tmp: t,
            size: m.size,
            last: l0 + 6 + len,
            phase: PhaseModel::Payload { kind: f.0, len, payload: body },
        };
        assert(step(m1) == StepModel::Next(m2, None));
        let m3 = StreamModel {
            tmp: t,
            size: m.size,
            last: l0 + 6 + len,
            phase: PhaseModel::Header { n: 0, meta: Seq::empty() },
        };
        assert(step(m2) == StepModel::Next(m3, Some((f.0, f.1))));
        assert(t.subrange(m3.last as int, t.len() as int) =~= frames_bytes(rest)) by {
            let fr = frames_bytes(rest);
            assert(r.len() == fb.len() + fr.len());
            assert forall|i: int| 0 <= i < fr.len() implies t.subrange(
                m3.last as int,
                t.len() as int,
            )[i] == fr[i] by {
                assert(t[m3.last + i] == r[6 + len + i]);
                assert(r[6 + len + i] == fr[i]);
            }
        }
        assert forall|i: int| 0 <= i < rest.len() implies #[trigger] rest[i].1.len() <= u32::MAX by {
            assert(rest[i] == fs[i + 1]);
        }
        lemma_drive_whole_frames(m3, sent + seq![f], rest);
        assert(sent + sent_by(None) =~= sent);
        assert(drive(m, sent) == drive(m1, sent));
        assert(drive(m1, sent) == drive(m2, sent));
        assert(drive(m2, sent) == drive(m3, sent + seq![f]));
        assert(sent + seq![f] + rest =~= sent + fs);
        assert(sent + sent_by(Some((f.0, f.1))) == sent + seq![f]);
        assert(sent + Seq::<(u16, Seq<u8>)>::empty() =~= sent);
    }
}

/// Between messages, a piece made of whole framed messages makes the loop
/// send each of them, in order, and wait again between messages.
pub proof fn lemma_receive_whole_frames(m: StreamModel, fs: Seq<(u16, Seq<u8>)>)
    requires
        between_messages(m),
        frames_fit(fs),
        frames_bytes(fs).len() <= usize::MAX,
    ensures
        receive(m, frames_bytes(fs)) == Some((fs, StopModel::Paused, done_with(frames_bytes(fs)))),
{
    let c = frames_bytes(fs);
    let empty = Seq::<(u16, Seq<u8>)>::empty();
    if fs.len() == 0 {
        let m1 = StreamModel {
            tmp: c,
            size: 0,
            last: 0,
            phase: PhaseModel::Header { n: 0, meta: Seq::<u8>::empty() + c.subrange(0, 0) },
        };
        assert(Seq::<u8>::empty() + c.subrange(0, 0) =~= Seq::<u8>::empty());
        assert(resume(m, c) == Some(m1));
        assert(c.subrange(0, 0) =~= frames_bytes(fs));
        lemma_drive_whole_frames(m1, empty, fs);
        assert(empty + fs =~= fs);
        assert(m1 == done_with(c));
    } else {
        let f = fs[0];
        let rest = fs.drop_first();
        assert(f.1.len() <= u32::MAX);
        lemma_frame_parts(f.0, f.1);
        let fb = frame_bytes(f.0, f.1);
        let len = f.1.len();
        assert(c == fb + frames_bytes(rest));
        let header = c.subrange(0, 6);
        assert(header =~= fb.subrange(0, 6));
        let m1 = StreamModel {
            tmp: c,
            size: c.len(),
            last: 6,
            phase: PhaseModel::Header { n: c.len(), meta: Seq::<u8>::empty() + header },
        };
        assert(Seq::<u8>::empty() + header =~= header);
        assert(resume(m, c) == Some(m1));
        let body = c.subrange(6, 6 + len as int);
        assert(body =~= f.1) by {
            assert forall|i: int| 0 <= i < len implies body[i] == f.1[i] by {
                assert(c[6 + i] == fb[6 + i]);
                assert(fb.subrange(6, 6 + len as int)[i] == fb[6 + i]);
            }
        }
        let m2 = StreamModel {
            tmp: c,
            size: c.len(),
            last: 6 + len,
            phase: PhaseModel::Payload { kind: f.0, len, payload: body },
        };
        assert(step(m1) == StepModel::Next(m2, None));
        let m3 = StreamModel {
            tmp: c,
            size: c.len(),
            last: 6 + len,
            phase: PhaseModel::Header { n: 0, meta: Seq::empty() },
        };
        assert(step(m2) == StepModel::Next(m3, Some((f.0, f.1))));
        assert(c.subrange(m3.last as int, c.len() as int) =~= frames_bytes(rest)) by {
            let fr = frames_bytes(rest);
            assert forall|i: int| 0 <= i < fr.len() implies c.subrange(
                m3.last as int,
                c.len() as int,
            )[i] == fr[i] by {
                assert(c[6 + len + i] == fr[i]);
            }
        }
        assert forall|i: int| 0 <= i < rest.len() implies #[trigger] rest[i].1.len() <= u32::MAX by {
            assert(rest[i] == fs[i + 1]);
        }
        lemma_drive_whole_frames(m3, empty + seq![f], rest);
        assert(empty + sent_by(None) =~= empty);
        assert(drive(m1, empty) == drive(m2, empty));
        assert(drive(m2, empty) == drive(m3, empty + seq![f]));
        assert(empty + seq![f] + rest =~= fs);
        assert(empty + sent_by(Some((f.0, f.1))) == empty + seq![f]);
    }
}

/// What the receive loop does with a list of pieces from state `m`: the
/// messages it sends and the state it ends in; `None` when it would panic
/// or stops on an error.
pub open spec fn receive_all(m: StreamModel, chunks: Seq<Seq<u8>>) -> Option<
    (Seq<(u16, Seq<u8>)>, StreamModel),
>
    decreases chunks.len(),
{
    if chunks.len() == 0 {
        Some((Seq::empty(), m))
    } else {
        match receive(m, chunks[0]) {
            Some((fs, StopModel::Paused, m2)) => match receive_all(m2, chunks.drop_first()) {
                Some((gs, m3)) => Some((fs + gs, m3)),
                None => None,
            },
            _ => None,
        }
    }
}

/// All the messages of a list of lists, in order.
pub open spec fn flatten_frames(lists: Seq<Seq<(u16, Seq<u8>)>>) -> Seq<(u16, Seq<u8>)>
    decreases lists.len(),
{
    if lists.len() == 0 {
        Seq::empty()
    } else {
        lists[0] + flatten_frames(lists.drop_first())
    }
}

/// When every piece the connection hands the loop is made of whole framed
/// messages, the loop sends exactly those messages, in the order of the
/// pieces and in order within each piece, and never panics: none is
/// dropped, repeated, merged or split, and an empty piece sends nothing.
pub proof fn lemma_receive_whole_frame_pieces(m: StreamModel, lists: Seq<Seq<(u16, Seq<u8>)>>)
    requires
        between_messages(m),
        forall|i: int| 0 <= i < lists.len() ==> #[trigger] frames_fit(lists[i]),
        forall|i: int| 0 <= i < lists.len() ==> #[trigger] frames_bytes(lists[i]).len() <= usize::MAX,
    ensures
        receive_all(m, lists.map_values(|fs: Seq<(u16, Seq<u8>)>| frames_bytes(fs))) matches Some(
            (sent, end),
        ) && sent == flatten_frames(lists) && between_messages(end),
    decreases lists.len(),
{
    let chunks = lists.map_values(|fs: Seq<(u16, Seq<u8>)>| frames_bytes(fs));
    if lists.len() == 0 {
        assert(flatten_frames(lists) =~= Seq::<(u16, Seq<u8>)>::empty());
    } else {
        assert(frames_fit(lists[0]));
        assert(frames_bytes(lists[0]).len() <= usize::MAX);
        lemma_receive_whole_frames(m, lists[0]);
        let m2 = done_with(frames_bytes(lists[0]));
        let tail = lists.drop_first();
        assert forall|i: int| 0 <= i < tail.len() implies #[trigger] frames_fit(tail[i]) by {
            assert(tail[i] == lists[i + 1]);
            assert(frames_fit(lists[i + 1]));
        }
        assert forall|i: int| 0 <= i < tail.len() implies #[trigger] frames_bytes(tail[i]).len()
            <= usize::MAX by {
            assert(tail[i] == lists[i + 1]);
            assert(frames_bytes(lists[i + 1]).len() <= usize::MAX);
        }
        lemma_receive_whole_frame_pieces(m2, tail);
        assert(chunks[0] == frames_bytes(lists[0]));
        assert(chunks.drop_first() =~= tail.map_values(|fs: Seq<(u16, Seq<u8>)>| frames_bytes(fs)));
    }
}

/// A single message framed by `serialize_message`, handed to the loop
/// between messages, is sent whole, and the loop waits again between
/// messages.
pub proof fn lemma_receive_one_frame(m: StreamModel, kind: u16, payload: Seq<u8>)
    requires
        between_messages(m),
        payload.len() + 6 <= u32::MAX,
    ensures
        receive(m, frame_bytes(kind, payload)) == Some(
            (seq![(kind, payload)], StopModel::Paused, done_with(frame_bytes(kind, payload))),
        ),
{
    let fs = seq![(kind, payload)];
    assert(fs.drop_first() =~= Seq::<(u16, Seq<u8>)>::empty());
    assert(frames_bytes(fs.drop_first()) =~= Seq::<u8>::empty());
    assert(frames_bytes(fs) =~= frame_bytes(kind, payload));
    lemma_frame_parts(kind, payload);
    lemma_receive_whole_frames(m, fs);
}

/// Between messages, a piece holding a header that announces `len` bytes
/// and fewer payload bytes than that sends nothing: the loop waits,
/// collecting the payload, with the announced length kept.
pub proof fn lemma_receive_partial_frame(m: StreamModel, kind: u16, len: u32, payload: Seq<u8>)
    requires
        between_messages(m),
        payload.len() < len,
        payload.len() + 6 <= usize::MAX,
    ensures
        ({
            let chunk = be16_bytes(kind) + be32_bytes(len) + payload;
            receive(m, chunk) == Some(
                (
                    Seq::<(u16, Seq<u8>)>::empty(),
                    StopModel::Paused,
                    StreamModel {
                        tmp: chunk,
                        size: chunk.len(),
                        last: chunk.len(),
                        phase: PhaseModel::Payload { kind, len: len as nat, payload },
                    },
                ),
            )
        }),
{
    let c = be16_bytes(kind) + be32_bytes(len) + payload;
    let empty = Seq::<(u16, Seq<u8>)>::empty();
    lemma_be16_roundtrip(kind);
    lemma_be32_roundtrip(len);
    let header = c.subrange(0, 6);
    assert(header[0] == be16_bytes(kind)[0] && header[1] == be16_bytes(kind)[1]);
    assert(header[2] == be32_bytes(len)[0]);
    assert(header[3] == be32_bytes(len)[1]);
    assert(header[4] == be32_bytes(len)[2]);
    assert(header[5] == be32_bytes(len)[3]);
    assert(be16_at(header, 0) == kind);
    assert(be32_at(header, 2) == len);
    let m1 = StreamModel {
        tmp: c,
        size: c.len(),
        last: 6,
        phase: PhaseModel::Header { n: c.len(), meta: Seq::<u8>::empty() + header },
    };
    assert(Seq::<u8>::empty() + header =~= header);
    assert(resume(m, c) == Some(m1));
    assert(c.subrange(6, c.len() as int) =~= payload);
    let m2 = StreamModel {
        tmp: c,
        size: c.len(),
        last: c.len(),
        phase: PhaseModel::Payload { kind, len: len as nat, payload },
    };
    assert(step(m1) == StepModel::Next(m2, None));
    assert(step(m2) == StepModel::Pause);
    assert(empty + sent_by(None) =~= empty);
    assert(drive(m1, empty) == drive(m2, empty));
}

/// Collecting a payload of announced length `len`, with the last piece
/// read to its counted end, a piece that leaves the payload still short of
/// `len` sends nothing: the loop waits with the piece added to the payload
/// and the announced length kept.
pub proof fn lemma_receive_payload_short(m: StreamModel, chunk: Seq<u8>, kind: u16, len: nat, payload: Seq<u8>)
    requires
        m.phase == (PhaseModel::Payload { kind, len, payload }),
        m.size <= m.last,
        payload.len() + chunk.len() < len,
    ensures
        receive(m, chunk) == Some(
            (
                Seq::<(u16, Seq<u8>)>::empty(),
                StopModel::Paused,
                StreamModel {
                    tmp: chunk,
                    size: m.size,
                    last: m.last,
                    phase: PhaseModel::Payload { kind, len, payload: payload + chunk },
                },
            ),
        ),
{
}

/// Collecting a payload of announced length `len`, with the last piece
/// read to its counted end, a piece that brings the payload to at least
/// `len` bytes sends exactly one message, of the header's kind, holding
/// the payload with the whole piece added, and the loop waits between
/// messages.
pub proof fn lemma_receive_payload_complete(
    m: StreamModel,
    chunk: Seq<u8>,
    kind: u16,
    len: nat,
    payload: Seq<u8>,
)
    requires
        m.phase == (PhaseModel::Payload { kind, len, payload }),
        m.size <= m.last,
        len <= payload.len() + chunk.len(),
    ensures
        receive(m, chunk) == Some(
            (
                seq![(kind, payload + chunk)],
                StopModel::Paused,
                StreamModel {
                    tmp: chunk,
                    size: m.size,
                    last: m.last,
                    phase: PhaseModel::Header { n: 0, meta: Seq::empty() },
                },
            ),
        ),
{
    let empty = Seq::<(u16, Seq<u8>)>::empty();
    let m1 = StreamModel {
        tmp: chunk,
        size: m.size,
        last: m.last,
        phase: PhaseModel::Payload { kind, len, payload: payload + chunk },
    };
    let m2 = StreamModel {
        tmp: chunk,
        size: m.size,
        last: m.last,
        phase: PhaseModel::Header { n: 0, meta: Seq::empty() },
    };
    assert(resume(m, chunk) == Some(m1));
    assert(step(m1) == StepModel::Next(m2, Some((kind, payload + chunk))));
    assert(step(m2) == StepModel::Pause);
    assert(empty + sent_by(Some((kind, payload + chunk))) =~= seq![(kind, payload + chunk)]);
    assert(drive(m1, empty) == drive(m2, seq![(kind, payload + chunk)]));
}

/// The messages a list of parsed frames stands for: kind numbers and
/// payload bytes.
pub open spec fn frames_view(frames: Seq<(u16, Vec<u8>)>) -> Seq<(u16, Seq<u8>)> {
    frames.map_values(|f: (u16, Vec<u8>)| (f.0, f.1@))
}

/// Where the executable receive loop stands.
pub enum Phase {
    Header { n: usize, meta: Vec<u8> },
    Payload { kind: u16, length: usize, payload: Vec<u8> },
}

/// The phase as a model.
pub open spec fn phase_view(p: Phase) -> PhaseModel {
    match p {
        Phase::Header { n, meta } => PhaseModel::Header { n: n as nat, meta: meta@ },
        Phase::Payload { kind, length, payload } => PhaseModel::Payload {
            kind,
            len: length as nat,
            payload: payload@,
        },
    }
}

/// The state the receive loop keeps between pieces.
pub struct MessageStream {
    tmp_buffer: Vec<u8>,
    buffer_size: usize,
    buffer_last_read: usize,
    phase: Phase,
}

/// The model of the loop's state given as its parts.
pub open spec fn model_of(tmp: Seq<u8>, size: usize, last: usize, phase: Phase) -> StreamModel {
    StreamModel { tmp, size: size as nat, last: last as nat, phase: phase_view(phase) }
}

impl View for MessageStream {
    type V = StreamModel;

    closed spec fn view(&self) -> StreamModel {
        model_of(self.tmp_buffer@, self.buffer_size, self.buffer_last_read, self.phase)
    }
}

/// Appends `src[from..to]` to `dst`.
fn append_range(dst: &mut Vec<u8>, src: &Vec<u8>, from: usize, to: usize)
    requires
        from <= to <= src@.len(),
    ensures
        final(dst)@ == old(dst)@ + src@.subrange(from as int, to as int),
{
    let mut i: usize = from;
    while i < to
        invariant
            from <= i <= to <= src@.len(),
            dst@ == old(dst)@ + src@.subrange(from as int, i as int),
        decreases to - i,
    {
        dst.push(src[i]);
        i = i + 1;
        assert(dst@ =~= old(dst)@ + src@.subrange(from as int, i as int));
    }
}

/// The smaller of two sizes.
fn min_usize(a: usize, b: usize) -> (r: usize)
    ensures
        r == min_nat(a as nat, b as nat),
{
    if a <= b {
        a
    } else {
        b
    }
}

impl MessageStream {
    /// The loop's state before it has read anything.
    pub fn new() -> (s: Self)
        ensures
            s@ == initial_stream(),
    {
        MessageStream {
            tmp_buffer: Vec::new(),
            buffer_size: 0,
            buffer_last_read: 0,
            phase: Phase::Header { n: 0, meta: Vec::new() },
        }
    }

    /// Whether the loop stands between messages.
    pub fn is_between_messages(&self) -> (r: bool)
        ensures
            r == between_messages(self@),
    {
        match &self.phase {
            Phase::Header { n, meta } => {
                let r = *n == 0 && meta.len() == 0;
                proof {
                    if r {
                        assert(meta@ =~= Seq::<u8>::empty());
                    }
                }
                r
            },
            Phase::Payload { .. } => false,
        }
    }

    /// Runs the receive loop on `chunk`: the messages it sends and the
    /// error text when it stops on a header it cannot read; `None` when the
    /// loop would panic on this piece, in which case the state left is
    /// unspecified.
    pub fn run(&mut self, parser: &MumbleParser, chunk: Vec<u8>) -> (r: Option<
        (Vec<(u16, Vec<u8>)>, Option<String>),
    >)
        ensures
            match receive(old(self)@, chunk@) {
                None => r is None,
                Some((sent, stop, m)) => r matches Some((frames, err)) && frames_view(frames@) == sent
                    && final(self)@ == m && match stop {
                    StopModel::Paused => err is None,
                    StopModel::Failed(text) => err matches Some(e) && e@ == text,
                },
            },
    {
        let mut tmp: Vec<u8> = Vec::new();
        std::mem::swap(&mut tmp, &mut self.tmp_buffer);
        let mut phase: Phase = Phase::Header { n: 0, meta: Vec::new() };
        std::mem::swap(&mut phase, &mut self.phase);
        let mut size: usize = self.buffer_size;
        let mut last: usize = self.buffer_last_read;
        assert(model_of(tmp@, size, last, phase) == old(self)@);
        // Take in the piece as the read the loop was waiting for.
        match phase {
            Phase::Header { n, meta } => {
                if n > usize::MAX - chunk.len() || meta.len() > METADATA_SIZE || n + chunk.len()
                    < meta.len() {
                    return None;
                }
                let n2: usize = n + chunk.len();
                let collected: usize = meta.len();
                let new_last: usize = min_usize(METADATA_SIZE - collected, n2);
                if new_last > chunk.len() {
                    return None;
                }
                let mut meta2: Vec<u8> = meta;
                append_range(&mut meta2, &chunk, 0, new_last);
                size = n2 - collected;
                last = new_last;
                tmp = chunk;
                phase = Phase::Header { n: n2, meta: meta2 };
            },
            Phase::Payload { kind, length, payload } => {
                let mut payload2: Vec<u8> = payload;
                append_range(&mut payload2, &chunk, 0, chunk.len());
                assert(chunk@.subrange(0, chunk@.len() as int) =~= chunk@);
                tmp = chunk;
                phase = Phase::Payload { kind, length, payload: payload2 };
            },
        }
        let ghost target = receive(old(self)@, chunk@);
        assert(resume(old(self)@, chunk@) == Some(model_of(tmp@, size, last, phase)));
        let mut frames: Vec<(u16, Vec<u8>)> = Vec::new();
        assert(frames_view(frames@) =~= Seq::<(u16, Seq<u8>)>::empty());
        loop
            invariant
                target == receive(old(self)@, chunk@),
                drive(model_of(tmp@, size, last, phase), frames_view(frames@)) == target,
            decreases unread(model_of(tmp@, size, last, phase)), phase_rank(
                model_of(tmp@, size, last, phase),
            ),
        {
            let ghost cur = model_of(tmp@, size, last, phase);
            proof {
                lemma_step_decreases(cur);
            }
            match phase {
                Phase::Header { n, meta } => {
                    if n < METADATA_SIZE {
                        if size <= last {
                            assert(step(cur) == StepModel::Pause);
                            assert(drive(cur, frames_view(frames@)) == Some(
                                (frames_view(frames@), StopModel::Paused, cur),
                            ));
                            self.tmp_buffer = tmp;
                            self.buffer_size = size;
                            self.buffer_last_read = last;
                            self.phase = Phase::Header { n, meta };
                            return Some((frames, None));
                        }
                        let read: usize = min_usize(METADATA_SIZE, size - last);
                        let end: usize = last + read;
                        if end > tmp.len() {
                            assert(step(cur) == StepModel::Panic);
                            return None;
                        }
                        let mut meta2: Vec<u8> = meta;
                        append_range(&mut meta2, &tmp, last, end);
                        phase = Phase::Header { n: n + read, meta: meta2 };
                        last = end;
                    } else {
                        match parser.message_metadata(&meta) {
                            Err(text) => {
                                assert(step(cur) == StepModel::Fail(text@));
                                self.tmp_buffer = tmp;
                                self.buffer_size = size;
                                self.buffer_last_read = last;
                                self.phase = Phase::Header { n, meta };
                                return Some((frames, Some(text)));
                            },
                            Ok(info) => {
                                if size < last {
                                    assert(step(cur) == StepModel::Panic);
                                    return None;
                                }
                                let take: usize = min_usize(info.length, size - last);
                                let end: usize = last + take;
                                if end > tmp.len() {
                                    assert(step(cur) == StepModel::Panic);
                                    return None;
                                }
                                let mut payload: Vec<u8> = Vec::new();
                                append_range(&mut payload, &tmp, last, end);
                                assert(payload@ =~= tmp@.subrange(last as int, end as int));
                                phase = Phase::Payload {
                                    kind: info.message_type,
                                    length: info.length,
                                    payload,
                                };
                                last = end;
                            },
                        }
                    }
                },
                Phase::Payload { kind, length, payload } => {
                    if payload.len() >= length {
                        let ghost before = frames_view(frames@);
                        frames.push((kind, payload));
                        assert(frames_view(frames@) =~= before + sent_by(
                            Some((kind, payload@)),
                        ));
                        phase = Phase::Header { n: 0, meta: Vec::new() };
                        assert(phase_view(phase) == PhaseModel::Header {
                            n: 0,
                            meta: Seq::<u8>::empty(),
                        });
                    } else if size <= last {
                        assert(step(cur) == StepModel::Pause);
                        assert(drive(cur, frames_view(frames@)) == Some(
                            (frames_view(frames@), StopModel::Paused, cur),
                        ));
                        self.tmp_buffer = tmp;
                        self.buffer_size = size;
                        self.buffer_last_read = last;
                        self.phase = Phase::Payload { kind, length, payload };
                        return Some((frames, None));
                    } else {
                        let take: usize = min_usize(length, size - last);
                        if last > take || take > tmp.len() || last > usize::MAX - take {
                            assert(step(cur) == StepModel::Panic);
                            return None;
                        }
                        let mut payload2: Vec<u8> = payload;
                        append_range(&mut payload2, &tmp, last, take);
                        phase = Phase::Payload { kind, length, payload: payload2 };
                        last = last + take;
                    }
                },
            }
            assert(step(cur) matches StepModel::Next(m2, f) && m2 == model_of(tmp@, size, last, phase));
        }
    }
}

} // verus!
