//! The skip engine: a specification of how many bytes one encoded Thrift
//! value occupies, and an iterative machine, shared by the synchronous and
//! the incremental readers, that consumes exactly one value without
//! materializing it.

use vstd::prelude::*;

use crate::thrift::TType;
use crate::wire::spec_i32_at;

verus! {

/// Bytes of `b` that lie at or after `pos` (zero when `pos` is past the
/// end); the termination measure of the wire grammar.
pub open spec fn rem_bytes(b: Seq<u8>, pos: int) -> nat {
    if pos <= b.len() {
        (b.len() - pos) as nat
    } else {
        0
    }
}

/// Position just past the single value of type `t` encoded at `pos` of `b`,
/// or `None` when the bytes at `pos` do not form one complete value: a type
/// tag outside the valid set, a tag (`Stop`, `Void`) that cannot head a
/// value, a negative byte-string length, or a buffer that ends too soon.
///
/// This is the reference description of the Binary wire grammar: structs
/// are a field stream (tag, id, value) terminated by a `Stop` tag; lists
/// and sets are an element tag and a 32-bit count followed by the elements;
/// maps are two tags and a count followed by alternating keys and values;
/// byte strings are a 32-bit length and that many bytes; the remaining
/// types have fixed widths.
pub open spec fn skip_end(b: Seq<u8>, pos: int, t: TType) -> Option<int>
    decreases rem_bytes(b, pos), 0nat, 0nat,
{
    if pos < 0 {
        None
    } else {
        match t {
            TType::Stop => None,
            TType::Void => None,
            TType::Binary => {
                if pos + 4 <= b.len() {
                    let len = spec_i32_at(b, pos) as int;
                    if len >= 0 && pos + 4 + len <= b.len() {
                        Some(pos + 4 + len)
                    } else {
                        None
                    }
                } else {
                    None
                }
            },
            TType::Struct => {
                if pos + 1 <= b.len() {
                    let tag = b[pos];
                    if tag == 0 {
                        Some(pos + 1)
                    } else if !TType::spec_valid_tag(tag) {
                        None
                    } else if pos + 3 <= b.len() {
                        let ft = TType::spec_from_u8(tag);
                        match skip_end(b, pos + 3, ft) {
                            Some(e) => skip_end(
                                b,
                                if e > pos + 3 {
                                    e
                                } else {
                                    pos + 4
                                },
                                TType::Struct,
                            ),
                            None => None,
                        }
                    } else {
                        None
                    }
                } else {
                    None
                }
            },
            TType::List | TType::TSet => {
                if pos + 5 <= b.len() {
                    let tag = b[pos];
                    if TType::spec_valid_tag(tag) {
                        let et = TType::spec_from_u8(tag);
                        let cnt = spec_i32_at(b, pos + 1) as u32;
                        elems_end(b, pos + 5, et, et, cnt as nat)
                    } else {
                        None
                    }
                } else {
                    None
                }
            },
            TType::TMap => {
                if pos + 6 <= b.len() {
                    let ktag = b[pos];
                    let vtag = b[pos + 1];
                    if TType::spec_valid_tag(ktag) && TType::spec_valid_tag(vtag) {
                        let kt = TType::spec_from_u8(ktag);
                        let vt = TType::spec_from_u8(vtag);
                        let cnt = spec_i32_at(b, pos + 2) as u32;
                        elems_end(b, pos + 6, kt, vt, 2 * (cnt as nat))
                    } else {
                        None
                    }
                } else {
                    None
                }
            },
            _ => {
                // fixed-width primitive
                let w = t.spec_fixed_width() as int;
                if pos + w <= b.len() {
                    Some(pos + w)
                } else {
                    None
                }
            },
        }
    }
}

/// Position just past `cnt` consecutive values starting at `pos`, whose
/// types alternate `t1`, `t2`, `t1`, ...; `None` when any of them is
/// incomplete or malformed.  A map with `n` entries is the case `cnt ==
/// 2 * n` with `t1` the key type; lists and sets are the case `t1 == t2`.
pub open spec fn elems_end(b: Seq<u8>, pos: int, t1: TType, t2: TType, cnt: nat) -> Option<int>
    decreases rem_bytes(b, pos), 1nat, cnt,
{
    if pos < 0 {
        None
    } else if cnt == 0 {
        Some(pos)
    } else if pos >= b.len() {
        None
    } else {
        match skip_end(b, pos, t1) {
            Some(e) => elems_end(
                b,
                if e > pos {
                    e
                } else {
                    pos + 1
                },
                t2,
                t1,
                (cnt - 1) as nat,
            ),
            None => None,
        }
    }
}

/// A complete value always occupies at least one byte and ends within the
/// buffer.
pub proof fn lemma_skip_end_bounds(b: Seq<u8>, pos: int, t: TType)
    requires
        0 <= pos,
    ensures
        skip_end(b, pos, t) matches Some(e) ==> pos < e <= b.len(),
    decreases rem_bytes(b, pos), 0nat, 0nat,
{
    match t {
        TType::Struct => {
            if pos + 1 <= b.len() {
                let tag = b[pos];
                if tag != 0 && TType::spec_valid_tag(tag) && pos + 3 <= b.len() {
                    let ft = TType::spec_from_u8(tag);
                    lemma_skip_end_bounds(b, pos + 3, ft);
                    match skip_end(b, pos + 3, ft) {
                        Some(e) => {
                            lemma_skip_end_bounds(b, e, TType::Struct);
                        },
                        None => {},
                    }
                }
            }
        },
        TType::List | TType::TSet => {
            if pos + 5 <= b.len() {
                let tag = b[pos];
                if TType::spec_valid_tag(tag) {
                    let et = TType::spec_from_u8(tag);
                    let cnt = spec_i32_at(b, pos + 1) as u32;
                    lemma_elems_bounds(b, pos + 5, et, et, cnt as nat);
                }
            }
        },
        TType::TMap => {
            if pos + 6 <= b.len() {
                let ktag = b[pos];
                let vtag = b[pos + 1];
                if TType::spec_valid_tag(ktag) && TType::spec_valid_tag(vtag) {
                    let kt = TType::spec_from_u8(ktag);
                    let vt = TType::spec_from_u8(vtag);
                    let cnt = spec_i32_at(b, pos + 2) as u32;
                    lemma_elems_bounds(b, pos + 6, kt, vt, 2 * (cnt as nat));
                }
            }
        },
        _ => {},
    }
}

/// A complete run of elements never moves backwards and, when non-empty,
/// consumes at least one byte and ends within the buffer.
pub proof fn lemma_elems_bounds(b: Seq<u8>, pos: int, t1: TType, t2: TType, cnt: nat)
    requires
        0 <= pos,
    ensures
        elems_end(b, pos, t1, t2, cnt) matches Some(e) ==> pos <= e && (cnt > 0 ==> pos < e
            <= b.len()),
    decreases rem_bytes(b, pos), 1nat, cnt,
{
    if cnt > 0 && pos < b.len() {
        lemma_skip_end_bounds(b, pos, t1);
        match skip_end(b, pos, t1) {
            Some(e) => {
                lemma_elems_bounds(b, e, t2, t1, (cnt - 1) as nat);
            },
            None => {},
        }
    }
}

/// For a fixed-width element type a value of the type occupies exactly its
/// width.
pub proof fn lemma_skip_end_fixed(b: Seq<u8>, pos: int, t: TType)
    requires
        0 <= pos,
        t.spec_fixed_width() > 0,
    ensures
        skip_end(b, pos, t) == if pos + t.spec_fixed_width() <= b.len() {
            Some(pos + t.spec_fixed_width())
        } else {
            None::<int>
        },
{
    match t {
        TType::Bool => {},
        TType::I8 => {},
        TType::I16 => {},
        TType::I32 => {},
        TType::Double => {},
        TType::I64 => {},
        TType::Uuid => {},
        _ => {},
    }
}

/// Total width of `cnt` alternating fixed-width elements.
pub open spec fn total_fixed(t1: TType, t2: TType, cnt: nat) -> nat
    decreases cnt,
{
    if cnt == 0 {
        0
    } else {
        t1.spec_fixed_width() + total_fixed(t2, t1, (cnt - 1) as nat)
    }
}

/// For fixed-width element types, a run of `cnt` elements is complete
/// exactly when the buffer holds their total width, and covers exactly that
/// many bytes.
pub proof fn lemma_elems_fixed(b: Seq<u8>, pos: int, t1: TType, t2: TType, cnt: nat)
    requires
        0 <= pos <= b.len(),
        t1.spec_fixed_width() > 0,
        t2.spec_fixed_width() > 0,
    ensures
        elems_end(b, pos, t1, t2, cnt) == if pos + total_fixed(t1, t2, cnt) <= b.len() {
            Some(pos + total_fixed(t1, t2, cnt))
        } else {
            None::<int>
        },
    decreases cnt,
{
    if cnt > 0 {
        let w1 = t1.spec_fixed_width() as int;
        if pos < b.len() {
            lemma_skip_end_fixed(b, pos, t1);
            if pos + w1 <= b.len() {
                lemma_elems_fixed(b, pos + w1, t2, t1, (cnt - 1) as nat);
            }
        }
    }
}

/// One stack frame of the skip machine: either "consume exactly one value
/// of this type" or "consume this many more elements, alternating between
/// the two types".
#[derive(Clone, Copy, Debug)]
pub enum SkipFrame {
    Other(TType),
    Collection(u64, TType, TType),
}

/// Position just past the bytes one frame stands for.
pub open spec fn frame_end(b: Seq<u8>, pos: int, f: SkipFrame) -> Option<int> {
    match f {
        SkipFrame::Other(t) => skip_end(b, pos, t),
        SkipFrame::Collection(n, t1, t2) => elems_end(b, pos, t1, t2, n as nat),
    }
}

/// Position just past the bytes a whole stack of frames stands for,
/// processed from the top (the last element) down.
pub open spec fn frames_end(b: Seq<u8>, pos: int, fs: Seq<SkipFrame>) -> Option<int>
    decreases fs.len(),
{
    if fs.len() == 0 {
        Some(pos)
    } else {
        match frame_end(b, pos, fs.last()) {
            Some(e) => frames_end(b, e, fs.drop_last()),
            None => None,
        }
    }
}

/// Pushing a frame prepends its obligation to the stack's denotation.
pub proof fn lemma_frames_push(b: Seq<u8>, pos: int, fs: Seq<SkipFrame>, f: SkipFrame)
    ensures
        frames_end(b, pos, fs.push(f)) == match frame_end(b, pos, f) {
            Some(e) => frames_end(b, e, fs),
            None => None::<int>,
        },
{
    assert(fs.push(f).last() == f);
    assert(fs.push(f).drop_last() =~= fs);
}

/// Termination weight of the machine stack: collections weigh twice their
/// remaining element count plus one, single values weigh one.
pub open spec fn frames_weight(fs: Seq<SkipFrame>) -> nat
    decreases fs.len(),
{
    if fs.len() == 0 {
        0
    } else {
        frames_weight(fs.drop_last()) + match fs.last() {
            SkipFrame::Other(_) => 1nat,
            SkipFrame::Collection(n, _, _) => 2 * (n as nat) + 1,
        }
    }
}

/// Pushing a frame adds its weight.
pub proof fn lemma_weight_push(fs: Seq<SkipFrame>, f: SkipFrame)
    ensures
        frames_weight(fs.push(f)) == frames_weight(fs) + match f {
            SkipFrame::Other(_) => 1nat,
            SkipFrame::Collection(n, _, _) => 2 * (n as nat) + 1,
        },
{
    assert(fs.push(f).last() == f);
    assert(fs.push(f).drop_last() =~= fs);
}

/// Result of one attempt to skip a value over the bytes at hand.
#[derive(Clone, Copy, Debug)]
pub enum SkipOutcome {
    /// The value is complete; it ends exactly at this position.
    Complete(usize),
    /// The buffer ends inside the value: at least this many bytes, counted
    /// from the start position, are needed before the attempt can succeed.
    NeedAtLeast(usize),
    /// The bytes cannot form a value of the requested type, no matter what
    /// follows them.
    Invalid,
}

/// `min(pos - start + extra, usize::MAX)`: how many bytes a skip that
/// stands at `pos` and wants `extra` more has consumed or will consume,
/// counted from `start`, saturated at the address-space limit.
fn need_from(start: usize, pos: usize, extra: u64) -> (r: usize)
    requires
        start <= pos,
    ensures
        r as int == if pos - start + extra <= usize::MAX {
            pos - start + extra
        } else {
            usize::MAX as int
        },
{
    let a: u64 = (pos - start) as u64;
    let cap: u64 = usize::MAX as u64;
    if extra <= cap - a {
        (a + extra) as usize
    } else {
        usize::MAX
    }
}

/// Skip exactly one value of type `t` starting at `start`.
///
/// The outcome decides `skip_end` exactly: `Complete(e)` holds if and only
/// if `skip_end(b@, start, t)` is `Some(e)`; both other outcomes report
/// that the value is not complete in the bytes at hand, `NeedAtLeast`
/// naming a byte count (from `start`) that is still missing.
#[verifier::rlimit(100)]
pub fn skip_value(b: &Vec<u8>, start: usize, t: TType) -> (r: SkipOutcome)
    requires
        start <= b@.len(),
    ensures
        match r {
            SkipOutcome::Complete(e) => skip_end(b@, start as int, t) == Some(e as int),
            SkipOutcome::NeedAtLeast(n) => skip_end(b@, start as int, t) is None && (n
                == usize::MAX || start + n > b@.len()),
            SkipOutcome::Invalid => skip_end(b@, start as int, t) is None,
        },
{
    let len = b.len();
    let ghost target = skip_end(b@, start as int, t);
    let mut frames: Vec<SkipFrame> = Vec::new();
    frames.push(SkipFrame::Other(t));
    let mut pos: usize = start;
    proof {
        lemma_frames_push(b@, start as int, Seq::<SkipFrame>::empty(), SkipFrame::Other(t));
        assert(frames@ =~= Seq::<SkipFrame>::empty().push(SkipFrame::Other(t)));
    }
    while frames.len() > 0
        invariant
            start <= pos <= len,
            len == b@.len(),
            target == skip_end(b@, start as int, t),
            frames_end(b@, pos as int, frames@) == target,
        decreases rem_bytes(b@, pos as int), frames_weight(frames@),
    {
        let ghost prev_frames = frames@;
        let f = match frames.pop() {
            Some(f) => f,
            None => {
                return SkipOutcome::Invalid;  // unreachable: the loop condition holds
            },
        };
        proof {
            assert(prev_frames =~= frames@.push(f));
            lemma_frames_push(b@, pos as int, frames@, f);
            lemma_weight_push(frames@, f);
        }
        match f {
            SkipFrame::Other(tt) => {
                match tt {
                    TType::Stop | TType::Void => {
                        return SkipOutcome::Invalid;
                    },
                    TType::Binary => {
                        if len - pos < 4 {
                            return SkipOutcome::NeedAtLeast(need_from(start, pos, 4));
                        }
                        let l = crate::wire::read_i32_at(b, pos);
                        if l < 0 {
                            return SkipOutcome::Invalid;
                        }
                        let l64: u64 = l as u64;
                        if ((len - (pos + 4)) as u64) < l64 {
                            return SkipOutcome::NeedAtLeast(need_from(start, pos, 4 + l64));
                        }
                        pos = pos + 4 + (l as usize);
                    },
                    TType::Struct => {
                        if len - pos < 1 {
                            return SkipOutcome::NeedAtLeast(need_from(start, pos, 1));
                        }
                        let tag = b[pos];
                        if tag == 0 {
                            pos = pos + 1;
                        } else {
                            let ft = match TType::try_from(tag) {
                                Ok(ft) => ft,
                                Err(_) => {
                                    return SkipOutcome::Invalid;
                                },
                            };
                            let w = ft.fixed_width();
                            proof {
                                lemma_skip_end_bounds(b@, pos + 3, ft);
                                if ft.spec_fixed_width() > 0 {
                                    lemma_skip_end_fixed(b@, pos + 3, ft);
                                }
                            }
                            if w != 0 {
                                if len - (pos + 1) < 2 + w {
                                    return SkipOutcome::NeedAtLeast(
                                        need_from(start, pos, 3 + w as u64),
                                    );
                                }
                                pos = pos + 3 + w;
                                frames.push(SkipFrame::Other(TType::Struct));
                                proof {
                                    lemma_frames_push(
                                        b@,
                                        pos as int,
                                        frames@.drop_last(),
                                        SkipFrame::Other(TType::Struct),
                                    );
                                    assert(frames@.drop_last() =~= prev_frames.drop_last());
                                }
                            } else {
                                if len - (pos + 1) < 2 {
                                    return SkipOutcome::NeedAtLeast(need_from(start, pos, 3));
                                }
                                pos = pos + 3;
                                frames.push(SkipFrame::Other(TType::Struct));
                                frames.push(SkipFrame::Other(ft));
                                proof {
                                    let fs0 = prev_frames.drop_last();
                                    assert(frames@ =~= fs0.push(SkipFrame::Other(TType::Struct)).push(
                                        SkipFrame::Other(ft),
                                    ));
                                    lemma_frames_push(
                                        b@,
                                        pos as int,
                                        fs0.push(SkipFrame::Other(TType::Struct)),
                                        SkipFrame::Other(ft),
                                    );
                                    lemma_weight_push(fs0, SkipFrame::Other(TType::Struct));
                                    lemma_weight_push(
                                        fs0.push(SkipFrame::Other(TType::Struct)),
                                        SkipFrame::Other(ft),
                                    );
                                    match skip_end(b@, pos as int, ft) {
                                        Some(e) => {
                                            lemma_frames_push(
                                                b@,
                                                e,
                                                fs0,
                                                SkipFrame::Other(TType::Struct),
                                            );
                                        },
                                        None => {},
                                    }
                                }
                            }
                        }
                    },
                    TType::List | TType::TSet => {
                        if len - pos < 5 {
                            return SkipOutcome::NeedAtLeast(need_from(start, pos, 5));
                        }
                        let tag = b[pos];
                        let et = match TType::try_from(tag) {
                            Ok(et) => et,
                            Err(_) => {
                                return SkipOutcome::Invalid;
                            },
                        };
                        let cnt = crate::wire::read_i32_at(b, pos + 1) as u32;
                        let w = et.fixed_width();
                        if w != 0 {
                            proof {
                                assert(et.spec_fixed_width() <= 16);
                                assert((cnt as int) * (w as int) <= 0xffff_ffff * 16)
                                    by (nonlinear_arith)
                                    requires
                                        cnt <= 0xffff_ffffu32,
                                        0 <= w <= 16,
                                ;
                            }
                            let skip_amt: u64 = (cnt as u64) * (w as u64);
                            proof {
                                lemma_elems_fixed(b@, pos + 5, et, et, cnt as nat);
                                lemma_total_fixed_uniform(et, cnt as nat);
                                assert((cnt as int) * (w as int) == (w as int) * (cnt as int))
                                    by (nonlinear_arith);
                                assert(skip_amt as int == total_fixed(et, et, cnt as nat));
                                assert(frame_end(b@, pos as int, f) == elems_end(
                                    b@,
                                    pos + 5,
                                    et,
                                    et,
                                    cnt as nat,
                                ));
                            }
                            if ((len - (pos + 5)) as u64) < skip_amt {
                                return SkipOutcome::NeedAtLeast(
                                    need_from(start, pos, 5 + skip_amt),
                                );
                            }
                            pos = pos + 5 + (skip_amt as usize);
                        } else {
                            pos = pos + 5;
                            frames.push(SkipFrame::Collection(cnt as u64, et, et));
                            proof {
                                lemma_frames_push(
                                    b@,
                                    pos as int,
                                    frames@.drop_last(),
                                    SkipFrame::Collection(cnt as u64, et, et),
                                );
                                assert(frames@.drop_last() =~= prev_frames.drop_last());
                            }
                        }
                    },
                    TType::TMap => {
                        if len - pos < 6 {
                            return SkipOutcome::NeedAtLeast(need_from(start, pos, 6));
                        }
                        let ktag = b[pos];
                        let kt = match TType::try_from(ktag) {
                            Ok(kt) => kt,
                            Err(_) => {
                                return SkipOutcome::Invalid;
                            },
                        };
                        let vtag = b[pos + 1];
                        let vt = match TType::try_from(vtag) {
                            Ok(vt) => vt,
                            Err(_) => {
                                return SkipOutcome::Invalid;
                            },
                        };
                        let cnt = crate::wire::read_i32_at(b, pos + 2) as u32;
                        let w1 = kt.fixed_width();
                        let w2 = vt.fixed_width();
                        if w1 != 0 && w2 != 0 {
                            proof {
                                assert(kt.spec_fixed_width() <= 16);
                                assert(vt.spec_fixed_width() <= 16);
                                assert((cnt as int) * ((w1 + w2) as int) <= 0xffff_ffff * 32)
                                    by (nonlinear_arith)
                                    requires
                                        cnt <= 0xffff_ffffu32,
                                        0 <= w1 + w2 <= 32,
                                ;
                            }
                            let skip_amt: u64 = (cnt as u64) * ((w1 + w2) as u64);
                            proof {
                                lemma_elems_fixed(b@, pos + 6, kt, vt, 2 * (cnt as nat));
                                lemma_total_fixed_pair(kt, vt, cnt as nat);
                                assert((cnt as int) * ((w1 + w2) as int) == ((w1 + w2) as int) * (
                                cnt as int)) by (nonlinear_arith);
                                assert(skip_amt as int == total_fixed(kt, vt, 2 * (cnt as nat)));
                                assert(frame_end(b@, pos as int, f) == elems_end(
                                    b@,
                                    pos + 6,
                                    kt,
                                    vt,
                                    2 * (cnt as nat),
                                ));
                            }
                            if ((len - (pos + 6)) as u64) < skip_amt {
                                return SkipOutcome::NeedAtLeast(
                                    need_from(start, pos, 6 + skip_amt),
                                );
                            }
                            pos = pos + 6 + (skip_amt as usize);
                        } else {
                            pos = pos + 6;
                            frames.push(SkipFrame::Collection(2 * (cnt as u64), kt, vt));
                            proof {
                                lemma_frames_push(
                                    b@,
                                    pos as int,
                                    frames@.drop_last(),
                                    SkipFrame::Collection((2 * (cnt as int)) as u64, kt, vt),
                                );
                                assert(frames@.drop_last() =~= prev_frames.drop_last());
                            }
                        }
                    },
                    _ => {
                        // fixed-width primitive
                        let w = tt.fixed_width();
                        if len - pos < w {
                            return SkipOutcome::NeedAtLeast(need_from(start, pos, w as u64));
                        }
                        pos = pos + w;
                    },
                }
            },
            SkipFrame::Collection(n, t1, t2) => {
                if n > 0 {
                    if len - pos < 1 {
                        return SkipOutcome::NeedAtLeast(need_from(start, pos, 1));
                    }
                    frames.push(SkipFrame::Collection(n - 1, t2, t1));
                    frames.push(SkipFrame::Other(t1));
                    proof {
                        let fs0 = prev_frames.drop_last();
                        assert(frames@ =~= fs0.push(SkipFrame::Collection((n - 1) as u64, t2, t1)).push(
                            SkipFrame::Other(t1),
                        ));
                        lemma_frames_push(
                            b@,
                            pos as int,
                            fs0.push(SkipFrame::Collection((n - 1) as u64, t2, t1)),
                            SkipFrame::Other(t1),
                        );
                        lemma_weight_push(fs0, SkipFrame::Collection((n - 1) as u64, t2, t1));
                        lemma_weight_push(
                            fs0.push(SkipFrame::Collection((n - 1) as u64, t2, t1)),
                            SkipFrame::Other(t1),
                        );
                        lemma_skip_end_bounds(b@, pos as int, t1);
                        match skip_end(b@, pos as int, t1) {
                            Some(e) => {
                                lemma_frames_push(
                                    b@,
                                    e,
                                    fs0,
                                    SkipFrame::Collection((n - 1) as u64, t2, t1),
                                );
                            },
                            None => {},
                        }
                    }
                }
            },
        }
    }
    SkipOutcome::Complete(pos)
}

/// `cnt` elements of one fixed width cover `cnt` times that width.
pub proof fn lemma_total_fixed_uniform(t: TType, cnt: nat)
    ensures
        total_fixed(t, t, cnt) == t.spec_fixed_width() * cnt,
    decreases cnt,
{
    if cnt > 0 {
        lemma_total_fixed_uniform(t, (cnt - 1) as nat);
        assert(t.spec_fixed_width() * cnt == t.spec_fixed_width() + t.spec_fixed_width() * (cnt
            - 1)) by (nonlinear_arith);
    }
}

/// `2 * cnt` alternating elements of two fixed widths cover `cnt` times the
/// sum of the widths.
pub proof fn lemma_total_fixed_pair(t1: TType, t2: TType, cnt: nat)
    ensures
        total_fixed(t1, t2, 2 * cnt) == (t1.spec_fixed_width() + t2.spec_fixed_width()) * cnt,
    decreases cnt,
{
    if cnt == 0 {
        assert(total_fixed(t1, t2, 0) == 0);
        assert((t1.spec_fixed_width() + t2.spec_fixed_width()) * cnt == 0) by (nonlinear_arith)
            requires
                cnt == 0,
        ;
    } else {
        lemma_total_fixed_pair(t1, t2, (cnt - 1) as nat);
        let w1 = t1.spec_fixed_width() as int;
        let w2 = t2.spec_fixed_width() as int;
        assert(total_fixed(t2, t1, (2 * cnt - 1) as nat) == w2 + total_fixed(
            t1,
            t2,
            (2 * cnt - 2) as nat,
        ));
        assert(total_fixed(t1, t2, 2 * cnt) == w1 + w2 + total_fixed(t1, t2, (2 * cnt - 2) as nat));
        assert((w1 + w2) * cnt == w1 + w2 + (w1 + w2) * (cnt - 1)) by (nonlinear_arith);
        assert((w1 + w2) * (cnt - 1) >= 0) by (nonlinear_arith)
            requires
                w1 >= 0,
                w2 >= 0,
                cnt >= 1,
        ;
        assert((w1 + w2) * cnt >= 0) by (nonlinear_arith)
            requires
                w1 >= 0,
                w2 >= 0,
                cnt >= 1,
        ;
    }
}

/// Growing the buffer to the right never changes where a value that is
/// already complete ends: a complete value is followed by arbitrary
/// trailing bytes without moving its boundary, and feeding more input to an
/// incremental reader preserves every answer it could already give.
pub proof fn lemma_skip_end_extend(b1: Seq<u8>, b2: Seq<u8>, pos: int, t: TType)
    requires
        0 <= pos,
        b1.len() <= b2.len(),
        b2.subrange(0, b1.len() as int) == b1,
    ensures
        skip_end(b1, pos, t) matches Some(e) ==> skip_end(b2, pos, t) == Some(e),
    decreases rem_bytes(b1, pos), 0nat, 0nat,
{
    assert forall|i: int| 0 <= i < b1.len() implies b1[i] == b2[i] by {
        assert(b2.subrange(0, b1.len() as int)[i] == b2[i]);
    }
    match t {
        TType::Struct => {
            if pos + 1 <= b1.len() {
                let tag = b1[pos];
                if tag != 0 && TType::spec_valid_tag(tag) && pos + 3 <= b1.len() {
                    let ft = TType::spec_from_u8(tag);
                    lemma_skip_end_bounds(b1, pos + 3, ft);
                    lemma_skip_end_extend(b1, b2, pos + 3, ft);
                    match skip_end(b1, pos + 3, ft) {
                        Some(e) => {
                            lemma_skip_end_extend(b1, b2, e, TType::Struct);
                        },
                        None => {},
                    }
                }
            }
        },
        TType::List | TType::TSet => {
            if pos + 5 <= b1.len() {
                let tag = b1[pos];
                if TType::spec_valid_tag(tag) {
                    let et = TType::spec_from_u8(tag);
                    let cnt = spec_i32_at(b1, pos + 1) as u32;
                    lemma_elems_extend(b1, b2, pos + 5, et, et, cnt as nat);
                }
            }
        },
        TType::TMap => {
            if pos + 6 <= b1.len() {
                let ktag = b1[pos];
                let vtag = b1[pos + 1];
                if TType::spec_valid_tag(ktag) && TType::spec_valid_tag(vtag) {
                    let kt = TType::spec_from_u8(ktag);
                    let vt = TType::spec_from_u8(vtag);
                    let cnt = spec_i32_at(b1, pos + 2) as u32;
                    lemma_elems_extend(b1, b2, pos + 6, kt, vt, 2 * (cnt as nat));
                }
            }
        },
        _ => {},
    }
}

/// Companion of [`lemma_skip_end_extend`] for element runs.
pub proof fn lemma_elems_extend(b1: Seq<u8>, b2: Seq<u8>, pos: int, t1: TType, t2: TType, cnt: nat)
    requires
        0 <= pos,
        b1.len() <= b2.len(),
        b2.subrange(0, b1.len() as int) == b1,
    ensures
        elems_end(b1, pos, t1, t2, cnt) matches Some(e) ==> elems_end(b2, pos, t1, t2, cnt)
            == Some(e),
    decreases rem_bytes(b1, pos), 1nat, cnt,
{
    if cnt > 0 && pos < b1.len() {
        lemma_skip_end_bounds(b1, pos, t1);
        lemma_skip_end_extend(b1, b2, pos, t1);
        match skip_end(b1, pos, t1) {
            Some(e) => {
                lemma_elems_extend(b1, b2, e, t2, t1, (cnt - 1) as nat);
            },
            None => {},
        }
    }
}

} // verus!
