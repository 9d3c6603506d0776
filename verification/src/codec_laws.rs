use vstd::prelude::*;
use vstd::bytes::{
    lemma_auto_spec_u32_to_from_le_bytes, spec_u32_from_le_bytes, spec_u32_to_le_bytes,
};
use vstd::utf8::{encode_utf8, encode_utf8_decode_utf8, encode_utf8_valid_utf8};

use crate::wire::{
    arg_len_ok, args_lens_ok, args_writable, opt_bytes_view, opt_title_view, parse_list,
    parse_one, rd_array, rd_fd, rd_new_id_anonymous, rd_string, rd_title_name, rd_u32, ser_arg,
    ser_args, spec_pad, title_wire_bytes, title_writable, wr_array, zero_bytes, ArgDescView,
    ArgumentType, DynArgumentView, ParseRawError, RawFd, ReaderState,
};
use crate::interface::InterfaceTitleView;

verus! {

/// A dynamic argument carries the kind its schema slot declares, and its
/// variable-length parts are well formed for the wire: strings end with the
/// obligatory NUL, null object references are written as zero, interface
/// titles hold no embedded NUL, and every length stays below the 32-bit
/// limit.
pub open spec fn arg_matches_desc(a: DynArgumentView, d: ArgDescView) -> bool {
    match d.arg_type {
        ArgumentType::Int => a is Int,
        ArgumentType::Uint => a is Uint,
        ArgumentType::Fixed => a is Fixed,
        ArgumentType::String => match a {
            DynArgumentView::String(o) => match o {
                None => true,
                Some(v) => v.len() > 0 && v.last() == 0u8 && v.len() < 0xFFFF_FFFFu32,
            },
            _ => false,
        },
        ArgumentType::Object => match a {
            DynArgumentView::Object(o) => o matches Some(v) ==> v != 0,
            _ => false,
        },
        ArgumentType::NewId => match a {
            DynArgumentView::NewId(_, t) => {
                if d.interface is Some {
                    t is None
                } else {
                    &&& t matches Some(tv)
                    &&& title_writable(tv)
                    &&& title_wire_bytes(tv).len() < 0xFFFF_FFFFu32
                }
            },
            _ => false,
        },
        ArgumentType::Array => match a {
            DynArgumentView::Array(v) => v.len() < 0xFFFF_FFFFu32,
            _ => false,
        },
        ArgumentType::Fd => a is Fd,
    }
}

/// Every argument in `s` matches the schema slot at its position.
pub open spec fn args_match_descs(s: Seq<DynArgumentView>, ds: Seq<ArgDescView>) -> bool {
    &&& s.len() == ds.len()
    &&& forall|i: int| 0 <= i < s.len() ==> arg_matches_desc(#[trigger] s[i], ds[i])
}

/// Reading a word finds the value whose encoding sits at the cursor.
proof fn lemma_rd_u32_at(r: ReaderState, x: u32)
    requires
        0 <= r.pos,
        r.pos + 4 <= r.data.len(),
        r.data.subrange(r.pos, r.pos + 4) == spec_u32_to_le_bytes(x),
    ensures
        rd_u32(r) == Some((x, ReaderState { pos: r.pos + 4, ..r })),
{
    lemma_auto_spec_u32_to_from_le_bytes();
    assert(spec_u32_to_le_bytes(x).len() == 4);
    assert(spec_u32_from_le_bytes(spec_u32_to_le_bytes(x)) == x);
}

/// Reading a length-prefixed field finds the bytes whose wire form sits at
/// the cursor and steps past their padding.
proof fn lemma_rd_array_at(r: ReaderState, v: Seq<u8>)
    requires
        0 <= r.pos,
        v.len() < 0xFFFF_FFFFu32,
        r.pos + wr_array(v).len() <= r.data.len(),
        r.data.subrange(r.pos, r.pos + wr_array(v).len()) == wr_array(v),
    ensures
        rd_array(r) == Ok::<_, ParseRawError>(
            (v, ReaderState { pos: r.pos + wr_array(v).len(), ..r }),
        ),
{
    lemma_auto_spec_u32_to_from_le_bytes();
    let lenw = v.len() as u32;
    let l4 = spec_u32_to_le_bytes(lenw);
    let w = wr_array(v);
    let pad = spec_pad(v.len() as int);
    assert(l4.len() == 4);
    assert(w.len() == 4 + v.len() + pad);
    assert(r.data.subrange(r.pos, r.pos + 4) =~= l4) by {
        assert forall|k: int| 0 <= k < 4 implies r.data.subrange(r.pos, r.pos + 4)[k] == l4[k] by {
            assert(r.data.subrange(r.pos, r.pos + w.len() as int)[k] == w[k]);
        }
    }
    lemma_rd_u32_at(r, lenw);
    let r1 = ReaderState { pos: r.pos + 4, ..r };
    assert(lenw as int == v.len());
    assert(spec_pad(lenw as int) == pad);
    assert(r1.data.subrange(r1.pos, r1.pos + lenw) =~= v) by {
        assert forall|k: int| 0 <= k < v.len() implies r.data.subrange(
            r1.pos,
            r1.pos + lenw,
        )[k] == v[k] by {
            assert(r.data.subrange(r.pos, r.pos + w.len() as int)[4 + k] == w[4 + k]);
            assert(w[4 + k] == v[k]);
        }
    }
    assert(rd_array(r) == Ok::<_, ParseRawError>(
        (v, ReaderState { pos: r.pos + w.len() as int, ..r }),
    ));
}

/// Parsing one schema slot at the cursor recovers the very argument whose
/// serialization sits there.
proof fn lemma_encode_decode_one(d: ArgDescView, a: DynArgumentView, r: ReaderState)
    requires
        arg_matches_desc(a, d),
        0 <= r.pos,
        0 <= r.next_fd,
        r.pos + ser_arg(a).0.len() <= r.data.len(),
        r.data.subrange(r.pos, r.pos + ser_arg(a).0.len()) == ser_arg(a).0,
        r.next_fd + ser_arg(a).1.len() <= r.fds.len(),
        r.fds.subrange(r.next_fd, r.next_fd + ser_arg(a).1.len()) == ser_arg(a).1,
    ensures
        parse_one(d, r) == Ok::<_, ParseRawError>(
            (
                a,
                ReaderState {
                    pos: r.pos + ser_arg(a).0.len(),
                    next_fd: r.next_fd + ser_arg(a).1.len(),
                    ..r
                },
            ),
        ),
{
    lemma_auto_spec_u32_to_from_le_bytes();
    match a {
        DynArgumentView::Int(v) => {
            assert(spec_u32_to_le_bytes(v as u32).len() == 4);
            lemma_rd_u32_at(r, v as u32);
            assert((v as u32) as i32 == v) by (bit_vector);
        },
        DynArgumentView::Uint(v) => {
            assert(spec_u32_to_le_bytes(v).len() == 4);
            lemma_rd_u32_at(r, v);
        },
        DynArgumentView::Fixed(v) => {
            assert(spec_u32_to_le_bytes(v).len() == 4);
            lemma_rd_u32_at(r, v);
        },
        DynArgumentView::String(o) => match o {
            None => {
                lemma_rd_empty_array(r);
            },
            Some(v) => {
                lemma_rd_array_at(r, v);
            },
        },
        DynArgumentView::Object(o) => match o {
            None => {
                assert(spec_u32_to_le_bytes(0u32).len() == 4);
                lemma_rd_u32_at(r, 0);
            },
            Some(v) => {
                assert(spec_u32_to_le_bytes(v).len() == 4);
                lemma_rd_u32_at(r, v);
            },
        },
        DynArgumentView::NewId(id, o) => match o {
            None => {
                assert(d.interface is Some);
                assert(spec_u32_to_le_bytes(id).len() == 4);
                lemma_rd_u32_at(r, id);
            },
            Some(t) => {
                assert(d.interface is None);
                lemma_rd_anonymous_new_id(r, id, t);
            },
        },
        DynArgumentView::Array(v) => {
            lemma_rd_array_at(r, v);
        },
        DynArgumentView::Fd(fd) => {
            assert(r.next_fd < r.fds.len());
            assert(r.fds.subrange(r.next_fd, r.next_fd + 1)[0] == fd);
            assert(r.fds[r.next_fd] == fd);
        },
    }
}

/// A zero length word at the cursor reads as the null string.
proof fn lemma_rd_empty_array(r: ReaderState)
    requires
        0 <= r.pos,
        r.pos + 4 <= r.data.len(),
        r.data.subrange(r.pos, r.pos + 4) == spec_u32_to_le_bytes(0u32),
    ensures
        rd_array(r) == Ok::<_, ParseRawError>(
            (Seq::<u8>::empty(), ReaderState { pos: r.pos + 4, ..r }),
        ),
        rd_string(r) == Ok::<_, ParseRawError>(
            (None::<Seq<u8>>, ReaderState { pos: r.pos + 4, ..r }),
        ),
{
    lemma_auto_spec_u32_to_from_le_bytes();
    lemma_rd_u32_at(r, 0);
    assert(spec_pad(0) == 0);
    let r1 = ReaderState { pos: r.pos + 4, ..r };
    assert(r1.data.subrange(r1.pos, r1.pos + 0) =~= Seq::<u8>::empty());
}

/// Parsing a dynamic-interface new id at the cursor recovers the id and the
/// title whose serialization sits there.
proof fn lemma_rd_anonymous_new_id(r: ReaderState, id: u32, t: InterfaceTitleView)
    requires
        title_writable(t),
        title_wire_bytes(t).len() < 0xFFFF_FFFFu32,
        0 <= r.pos,
        r.pos + ser_arg(DynArgumentView::NewId(id, Some(t))).0.len() <= r.data.len(),
        r.data.subrange(
            r.pos,
            r.pos + ser_arg(DynArgumentView::NewId(id, Some(t))).0.len(),
        ) == ser_arg(DynArgumentView::NewId(id, Some(t))).0,
    ensures
        rd_new_id_anonymous(r) == Ok::<_, ParseRawError>(
            (
                (id, t),
                ReaderState {
                    pos: r.pos + ser_arg(DynArgumentView::NewId(id, Some(t))).0.len(),
                    ..r
                },
            ),
        ),
{
    lemma_auto_spec_u32_to_from_le_bytes();
    broadcast use encode_utf8_valid_utf8, encode_utf8_decode_utf8;

    let tb = title_wire_bytes(t);
    let wtb = wr_array(tb);
    let s = ser_arg(DynArgumentView::NewId(id, Some(t))).0;
    assert(s.len() == wtb.len() + 8);
    assert(r.data.subrange(r.pos, r.pos + wtb.len()) =~= wtb) by {
        assert forall|k: int| 0 <= k < wtb.len() implies r.data.subrange(
            r.pos,
            r.pos + wtb.len() as int,
        )[k] == wtb[k] by {
            assert(r.data.subrange(r.pos, r.pos + s.len() as int)[k] == s[k]);
            assert(s[k] == wtb[k]);
        }
    }
    lemma_rd_array_at(r, tb);
    let r1 = ReaderState { pos: r.pos + wtb.len() as int, ..r };
    // the title name round-trips through its wire bytes
    assert(tb.len() > 0);
    assert(tb.last() == 0u8);
    assert(tb.drop_last() =~= encode_utf8(t.name));
    assert(!tb.drop_last().contains(0u8));
    assert(rd_title_name(tb) == Ok::<Seq<char>, ParseRawError>(t.name));
    // then the version word
    assert(r.data.subrange(r1.pos, r1.pos + 4) =~= spec_u32_to_le_bytes(t.version)) by {
        assert forall|k: int| 0 <= k < 4 implies r.data.subrange(r1.pos, r1.pos + 4)[k]
            == spec_u32_to_le_bytes(t.version)[k] by {
            assert(r.data.subrange(r.pos, r.pos + s.len() as int)[wtb.len() + k] == s[wtb.len()
                + k]);
            assert(s[wtb.len() + k] == spec_u32_to_le_bytes(t.version)[k]);
        }
    }
    lemma_rd_u32_at(r1, t.version);
    let r2 = ReaderState { pos: r1.pos + 4, ..r1 };
    // then the id word
    assert(r.data.subrange(r2.pos, r2.pos + 4) =~= spec_u32_to_le_bytes(id)) by {
        assert forall|k: int| 0 <= k < 4 implies r.data.subrange(r2.pos, r2.pos + 4)[k]
            == spec_u32_to_le_bytes(id)[k] by {
            assert(r.data.subrange(r.pos, r.pos + s.len() as int)[wtb.len() + 4 + k] == s[wtb.len()
                + 4 + k]);
            assert(s[wtb.len() + 4 + k] == spec_u32_to_le_bytes(id)[k]);
        }
    }
    lemma_rd_u32_at(r2, id);
    assert(InterfaceTitleView { name: t.name, version: t.version } == t);
}

/// Encode-then-decode is the identity: parsing the serialized form of a
/// well-typed argument list, against the same schema, yields that very list
/// and consumes all its bytes and file descriptors.
pub proof fn lemma_encode_then_decode(
    ds: Seq<ArgDescView>,
    s: Seq<DynArgumentView>,
    r: ReaderState,
)
    requires
        args_match_descs(s, ds),
        0 <= r.pos,
        0 <= r.next_fd,
        r.pos + ser_args(s).0.len() == r.data.len(),
        r.data.subrange(r.pos, r.data.len() as int) == ser_args(s).0,
        r.next_fd + ser_args(s).1.len() == r.fds.len(),
        r.fds.subrange(r.next_fd, r.fds.len() as int) == ser_args(s).1,
    ensures
        parse_list(ds, r) == Ok::<_, ParseRawError>(
            (s, ReaderState { pos: r.data.len() as int, next_fd: r.fds.len() as int, ..r }),
        ),
    decreases ds.len(),
{
    if ds.len() == 0 {
        assert(s =~= Seq::<DynArgumentView>::empty());
        assert(ReaderState { pos: r.data.len() as int, next_fd: r.fds.len() as int, ..r } == r);
    } else {
        let a = s[0];
        let d = ds[0];
        let b0 = ser_arg(a).0;
        let f0 = ser_arg(a).1;
        let brest = ser_args(s.drop_first()).0;
        let frest = ser_args(s.drop_first()).1;
        assert(ser_args(s).0 == b0 + brest);
        assert(ser_args(s).1 == f0 + frest);
        assert(r.data.subrange(r.pos, r.pos + b0.len()) =~= b0) by {
            assert forall|k: int| 0 <= k < b0.len() implies r.data.subrange(
                r.pos,
                r.pos + b0.len() as int,
            )[k] == b0[k] by {
                assert(r.data.subrange(r.pos, r.data.len() as int)[k] == (b0 + brest)[k]);
            }
        }
        assert(r.fds.subrange(r.next_fd, r.next_fd + f0.len()) =~= f0) by {
            assert forall|k: int| 0 <= k < f0.len() implies r.fds.subrange(
                r.next_fd,
                r.next_fd + f0.len() as int,
            )[k] == f0[k] by {
                assert(r.fds.subrange(r.next_fd, r.fds.len() as int)[k] == (f0 + frest)[k]);
            }
        }
        lemma_encode_decode_one(d, a, r);
        let r1 = ReaderState { pos: r.pos + b0.len() as int, next_fd: r.next_fd + f0.len() as int, ..r };
        assert(r1.data.subrange(r1.pos, r1.data.len() as int) =~= brest) by {
            assert forall|k: int| 0 <= k < brest.len() implies r.data.subrange(
                r1.pos,
                r1.data.len() as int,
            )[k] == brest[k] by {
                assert(r.data.subrange(r.pos, r.data.len() as int)[b0.len() + k] == (b0
                    + brest)[b0.len() + k]);
            }
        }
        assert(r1.fds.subrange(r1.next_fd, r1.fds.len() as int) =~= frest) by {
            assert forall|k: int| 0 <= k < frest.len() implies r.fds.subrange(
                r1.next_fd,
                r1.fds.len() as int,
            )[k] == frest[k] by {
                assert(r.fds.subrange(r.next_fd, r.fds.len() as int)[f0.len() + k] == (f0
                    + frest)[f0.len() + k]);
            }
        }
        assert(args_match_descs(s.drop_first(), ds.drop_first())) by {
            assert forall|i: int|
                0 <= i < s.drop_first().len() implies arg_matches_desc(
                #[trigger] s.drop_first()[i],
                ds.drop_first()[i],
            ) by {
                assert(s[i + 1] == s.drop_first()[i]);
                assert(arg_matches_desc(s[i + 1], ds[i + 1]));
            }
        }
        lemma_encode_then_decode(ds.drop_first(), s.drop_first(), r1);
        assert(seq![a] + s.drop_first() =~= s);
        let rend = ReaderState { pos: r.data.len() as int, next_fd: r.fds.len() as int, ..r };
        assert(parse_list(ds, r) == Ok::<_, ParseRawError>((s, rend)));
    }
}

/// The padding bytes of the length-prefixed field at the cursor are zero.
pub open spec fn array_pads_zero(r: ReaderState) -> bool {
    match rd_array(r) {
        Ok((v, r2)) => r.data.subrange(r.pos + 4 + v.len(), r2.pos) == zero_bytes(
            spec_pad(v.len() as int),
        ),
        Err(_) => true,
    }
}

/// The padding of whatever variable-length field this schema slot reads at
/// the cursor is zero.
pub open spec fn pads_zero_one(d: ArgDescView, r: ReaderState) -> bool {
    match d.arg_type {
        ArgumentType::String => array_pads_zero(r),
        ArgumentType::Array => array_pads_zero(r),
        ArgumentType::NewId => d.interface is None ==> array_pads_zero(r),
        _ => true,
    }
}

/// All padding met while parsing this schema at the cursor is zero.
pub open spec fn pads_zero_list(ds: Seq<ArgDescView>, r: ReaderState) -> bool
    decreases ds.len(),
{
    if ds.len() == 0 {
        true
    } else {
        &&& pads_zero_one(ds[0], r)
        &&& match parse_one(ds[0], r) {
            Ok((_, r1)) => pads_zero_list(ds.drop_first(), r1),
            Err(_) => true,
        }
    }
}

/// A length-prefixed field that parses with zero padding re-serializes to
/// exactly the bytes it was read from.
proof fn lemma_rd_array_rev(r: ReaderState)
    requires
        0 <= r.pos <= r.data.len(),
        r.data.len() < 0xFFFF_FFFFu32,
        rd_array(r) is Ok,
        array_pads_zero(r),
    ensures
        rd_array(r) matches Ok((v, r2)) ==> {
            &&& v.len() < 0xFFFF_FFFFu32
            &&& r.pos <= r2.pos <= r.data.len()
            &&& r2.data == r.data
            &&& r2.fds == r.fds
            &&& r2.next_fd == r.next_fd
            &&& wr_array(v) == r.data.subrange(r.pos, r2.pos)
        },
{
    lemma_auto_spec_u32_to_from_le_bytes();
    let (lenw, r1) = rd_u32(r).unwrap();
    let (v, r2) = rd_array(r).unwrap();
    assert(lenw == spec_u32_from_le_bytes(r.data.subrange(r.pos, r.pos + 4)));
    assert(spec_u32_to_le_bytes(lenw) =~= r.data.subrange(r.pos, r.pos + 4));
    assert(v == r.data.subrange(r1.pos, r1.pos + lenw));
    assert(v.len() == lenw);
    assert(v.len() as u32 == lenw);
    let pad = spec_pad(v.len() as int);
    assert(r2.pos == r1.pos + lenw + pad);
    assert(r.data.subrange(r.pos + 4 + v.len(), r2.pos) == zero_bytes(pad));
    assert(wr_array(v) =~= r.data.subrange(r.pos, r2.pos)) by {
        assert forall|k: int| 0 <= k < 4 + v.len() + pad implies wr_array(v)[k] == r.data.subrange(
            r.pos,
            r2.pos,
        )[k] by {
            if k < 4 {
                assert(wr_array(v)[k] == spec_u32_to_le_bytes(lenw)[k]);
                assert(r.data.subrange(r.pos, r.pos + 4)[k] == r.data[r.pos + k]);
            } else if k < 4 + v.len() {
                assert(wr_array(v)[k] == v[k - 4]);
                assert(v[k - 4] == r.data[r1.pos + (k - 4)]);
            } else {
                assert(wr_array(v)[k] == zero_bytes(pad)[k - 4 - v.len()]);
                assert(r.data.subrange(r.pos + 4 + v.len(), r2.pos)[k - 4 - v.len()] == r.data[
                    r.pos + k]);
            }
        }
    }
}

/// One parsed argument matches its schema slot and re-serializes to exactly
/// the bytes and file descriptors it consumed.
proof fn lemma_decode_encode_one(d: ArgDescView, r: ReaderState)
    requires
        0 <= r.pos <= r.data.len(),
        0 <= r.next_fd <= r.fds.len(),
        r.data.len() < 0xFFFF_FFFFu32,
        parse_one(d, r) is Ok,
        pads_zero_one(d, r),
    ensures
        parse_one(d, r) matches Ok((a, r2)) ==> {
            &&& arg_matches_desc(a, d)
            &&& r.pos <= r2.pos <= r.data.len()
            &&& r.next_fd <= r2.next_fd <= r.fds.len()
            &&& r2.data == r.data
            &&& r2.fds == r.fds
            &&& ser_arg(a).0 == r.data.subrange(r.pos, r2.pos)
            &&& ser_arg(a).1 == r.fds.subrange(r.next_fd, r2.next_fd)
        },
{
    lemma_auto_spec_u32_to_from_le_bytes();
    broadcast use encode_utf8_valid_utf8, encode_utf8_decode_utf8,
        vstd::utf8::decode_utf8_encode_utf8;

    let (a, r2) = parse_one(d, r).unwrap();
    match d.arg_type {
        ArgumentType::Int => {
            let (w, _) = rd_u32(r).unwrap();
            assert((w as i32) as u32 == w) by (bit_vector);
            assert(spec_u32_to_le_bytes(w) =~= r.data.subrange(r.pos, r.pos + 4));
            assert(ser_arg(a).1 =~= r.fds.subrange(r.next_fd, r.next_fd));
        },
        ArgumentType::Uint => {
            let (w, _) = rd_u32(r).unwrap();
            assert(spec_u32_to_le_bytes(w) =~= r.data.subrange(r.pos, r.pos + 4));
            assert(ser_arg(a).1 =~= r.fds.subrange(r.next_fd, r.next_fd));
        },
        ArgumentType::Fixed => {
            let (w, _) = rd_u32(r).unwrap();
            assert(spec_u32_to_le_bytes(w) =~= r.data.subrange(r.pos, r.pos + 4));
            assert(ser_arg(a).1 =~= r.fds.subrange(r.next_fd, r.next_fd));
        },
        ArgumentType::String => {
            lemma_rd_array_rev(r);
            let (v, _) = rd_array(r).unwrap();
            if v.len() == 0 {
                assert(a == DynArgumentView::String(None::<Seq<u8>>));
                assert(wr_array(v) =~= spec_u32_to_le_bytes(0u32)) by {
                    assert(v.len() as u32 == 0u32);
                    assert(spec_pad(0) == 0);
                    assert(zero_bytes(0) =~= Seq::<u8>::empty());
                }
            } else {
                assert(a == DynArgumentView::String(Some(v)));
            }
            assert(ser_arg(a).1 =~= r.fds.subrange(r.next_fd, r.next_fd));
        },
        ArgumentType::Object => {
            let (w, _) = rd_u32(r).unwrap();
            if w == 0 {
                assert(a == DynArgumentView::Object(None::<u32>));
            } else {
                assert(a == DynArgumentView::Object(Some(w)));
            }
            assert(spec_u32_to_le_bytes(w) =~= r.data.subrange(r.pos, r.pos + 4));
            assert(ser_arg(a).1 =~= r.fds.subrange(r.next_fd, r.next_fd));
        },
        ArgumentType::NewId => {
            if d.interface is Some {
                let (w, _) = rd_u32(r).unwrap();
                assert(a == DynArgumentView::NewId(w, None::<InterfaceTitleView>));
                assert(spec_u32_to_le_bytes(w) =~= r.data.subrange(r.pos, r.pos + 4));
                assert(ser_arg(a).1 =~= r.fds.subrange(r.next_fd, r.next_fd));
            } else {
                lemma_rd_anonymous_new_id_rev(r);
                assert(ser_arg(a).1 =~= r.fds.subrange(r.next_fd, r.next_fd));
            }
        },
        ArgumentType::Array => {
            lemma_rd_array_rev(r);
            let (v, _) = rd_array(r).unwrap();
            assert(a == DynArgumentView::Array(v));
            assert(ser_arg(a).1 =~= r.fds.subrange(r.next_fd, r.next_fd));
        },
        ArgumentType::Fd => {
            let (fd, _) = rd_fd(r).unwrap();
            assert(a == DynArgumentView::Fd(fd));
            assert(ser_arg(a).0 =~= r.data.subrange(r.pos, r.pos));
            assert(ser_arg(a).1 =~= r.fds.subrange(r.next_fd, r.next_fd + 1));
        },
    }
}

/// A parsed dynamic-interface new id matches its slot and re-serializes to
/// the bytes it consumed.
proof fn lemma_rd_anonymous_new_id_rev(r: ReaderState)
    requires
        0 <= r.pos <= r.data.len(),
        r.data.len() < 0xFFFF_FFFFu32,
        rd_new_id_anonymous(r) is Ok,
        array_pads_zero(r),
    ensures
        rd_new_id_anonymous(r) matches Ok(((id, t), r2)) ==> {
            &&& title_writable(t)
            &&& title_wire_bytes(t).len() < 0xFFFF_FFFFu32
            &&& r.pos <= r2.pos <= r.data.len()
            &&& r2.data == r.data
            &&& r2.fds == r.fds
            &&& r2.next_fd == r.next_fd
            &&& ser_arg(DynArgumentView::NewId(id, Some(t))).0 == r.data.subrange(r.pos, r2.pos)
        },
{
    lemma_auto_spec_u32_to_from_le_bytes();
    broadcast use encode_utf8_valid_utf8, encode_utf8_decode_utf8,
        vstd::utf8::decode_utf8_encode_utf8;

    lemma_rd_array_rev(r);
    let (v, r1) = rd_array(r).unwrap();
    let name = match rd_title_name(v) {
        Ok(n) => n,
        Err(_) => arbitrary(),
    };
    let body = v.drop_last();
    assert(encode_utf8(name) == body);
    let ((id, t), r3) = rd_new_id_anonymous(r).unwrap();
    assert(t.name == name);
    let tb = title_wire_bytes(t);
    assert(tb =~= v) by {
        assert(encode_utf8(t.name) == body);
        assert(v =~= body + seq![0u8]);
    }
    assert(title_writable(t));
    assert(tb.len() < 0xFFFF_FFFFu32);
    let (version, r2x) = rd_u32(r1).unwrap();
    assert(spec_u32_to_le_bytes(version) =~= r.data.subrange(r1.pos, r1.pos + 4));
    let (idw, r3x) = rd_u32(r2x).unwrap();
    assert(spec_u32_to_le_bytes(idw) =~= r.data.subrange(r2x.pos, r2x.pos + 4));
    let s0 = ser_arg(DynArgumentView::NewId(id, Some(t))).0;
    assert(s0 == wr_array(tb) + spec_u32_to_le_bytes(version) + spec_u32_to_le_bytes(id));
    assert(wr_array(tb) == wr_array(v));
    assert(wr_array(v) == r.data.subrange(r.pos, r1.pos));
    assert(s0 =~= r.data.subrange(r.pos, r3.pos)) by {
        let wl = wr_array(v).len() as int;
        assert forall|k: int| 0 <= k < s0.len() implies s0[k] == r.data.subrange(
            r.pos,
            r3.pos,
        )[k] by {
            if k < wl {
                assert(s0[k] == wr_array(v)[k]);
                assert(wr_array(v)[k] == r.data.subrange(r.pos, r1.pos)[k]);
            } else if k < wl + 4 {
                assert(s0[k] == spec_u32_to_le_bytes(version)[k - wl]);
                assert(r.data.subrange(r1.pos, r1.pos + 4)[k - wl] == r.data[r1.pos + (k - wl)]);
            } else {
                assert(s0[k] == spec_u32_to_le_bytes(id)[k - wl - 4]);
                assert(r.data.subrange(r2x.pos, r2x.pos + 4)[k - wl - 4] == r.data[r2x.pos + (k
                    - wl - 4)]);
            }
        }
    }
}

/// Decode-then-encode reproduces the original payload exactly: arguments
/// parsed from a frame whose padding bytes are zero re-serialize to the very
/// bytes and file descriptors they were parsed from.
pub proof fn lemma_decode_then_encode(ds: Seq<ArgDescView>, r: ReaderState)
    requires
        0 <= r.pos <= r.data.len(),
        0 <= r.next_fd <= r.fds.len(),
        r.data.len() < 0xFFFF_FFFFu32,
        parse_list(ds, r) is Ok,
        pads_zero_list(ds, r),
    ensures
        parse_list(ds, r) matches Ok((vals, r2)) ==> {
            &&& args_match_descs(vals, ds)
            &&& r.pos <= r2.pos <= r.data.len()
            &&& r.next_fd <= r2.next_fd <= r.fds.len()
            &&& r2.data == r.data
            &&& r2.fds == r.fds
            &&& ser_args(vals).0 == r.data.subrange(r.pos, r2.pos)
            &&& ser_args(vals).1 == r.fds.subrange(r.next_fd, r2.next_fd)
        },
    decreases ds.len(),
{
    let (vals, r2) = parse_list(ds, r).unwrap();
    if ds.len() == 0 {
        assert(ser_args(vals).0 =~= r.data.subrange(r.pos, r.pos));
        assert(ser_args(vals).1 =~= r.fds.subrange(r.next_fd, r.next_fd));
    } else {
        let (a, r1) = parse_one(ds[0], r).unwrap();
        lemma_decode_encode_one(ds[0], r);
        lemma_decode_then_encode(ds.drop_first(), r1);
        let (rest, _) = parse_list(ds.drop_first(), r1).unwrap();
        assert(vals == seq![a] + rest);
        assert(vals[0] == a);
        assert(vals.drop_first() =~= rest);
        assert(args_match_descs(vals, ds)) by {
            assert forall|i: int| 0 <= i < vals.len() implies arg_matches_desc(
                #[trigger] vals[i],
                ds[i],
            ) by {
                if i == 0 {
                } else {
                    assert(rest[i - 1] == vals[i]);
                    assert(ds.drop_first()[i - 1] == ds[i]);
                    assert(arg_matches_desc(rest[i - 1], ds.drop_first()[i - 1]));
                }
            }
        }
        assert(ser_args(vals).0 == ser_arg(a).0 + ser_args(rest).0);
        assert(ser_args(vals).1 == ser_arg(a).1 + ser_args(rest).1);
        assert(ser_args(vals).0 =~= r.data.subrange(r.pos, r2.pos)) by {
            assert(ser_arg(a).0 == r.data.subrange(r.pos, r1.pos));
            assert(ser_args(rest).0 == r.data.subrange(r1.pos, r2.pos));
        }
        assert(ser_args(vals).1 =~= r.fds.subrange(r.next_fd, r2.next_fd)) by {
            assert(ser_arg(a).1 == r.fds.subrange(r.next_fd, r1.next_fd));
            assert(ser_args(rest).1 == r.fds.subrange(r1.next_fd, r2.next_fd));
        }
    }
}

/// How many file descriptors a schema asks for.
pub open spec fn count_fds(ds: Seq<ArgDescView>) -> int
    decreases ds.len(),
{
    if ds.len() == 0 {
        0
    } else {
        (if ds[0].arg_type is Fd {
            1int
        } else {
            0int
        }) + count_fds(ds.drop_first())
    }
}

/// Parsing a request consumes exactly as many file descriptors as its schema
/// declares `fd` slots, and touches nothing else of the queue.
pub proof fn lemma_parse_consumes_fds(ds: Seq<ArgDescView>, r: ReaderState)
    requires
        parse_list(ds, r) is Ok,
    ensures
        parse_list(ds, r) matches Ok((_, r2)) ==> {
            &&& r2.next_fd == r.next_fd + count_fds(ds)
            &&& r2.data == r.data
            &&& r2.fds == r.fds
        },
    decreases ds.len(),
{
    if ds.len() == 0 {
    } else {
        let (a, r1) = parse_one(ds[0], r).unwrap();
        assert(r1.next_fd == r.next_fd + (if ds[0].arg_type is Fd {
            1int
        } else {
            0int
        }) && r1.data == r.data && r1.fds == r.fds);
        lemma_parse_consumes_fds(ds.drop_first(), r1);
    }
}

} // verus!
