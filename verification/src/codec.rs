//! Wire-protocol codec.
//!
//! A request frame on the wire is `*<count>\r\n` followed by `<count>`
//! elements, each `$<len>\r\n<len bytes>\r\n`. `decode` turns a byte buffer
//! into a [`Frame`] plus the number of bytes consumed, distinguishing a
//! complete frame, a well-formed but incomplete prefix (more bytes needed),
//! and a malformed buffer. `encode` turns a [`Reply`] into the exact bytes to
//! send back.
//!
//! Declared counts and lengths are limited to nine decimal digits (below one
//! billion); longer digit runs are rejected as malformed.
use vstd::prelude::*;

use crate::bytes::all_digits;
use crate::bytes::copy_range;
use crate::bytes::dec_digits;
use crate::bytes::digits_val;
use crate::bytes::is_digit;
use crate::bytes::lemma_digits_val_bound;
use crate::bytes::pow10;
use crate::bytes::push_dec;

verus! {

/// The two-byte line delimiter `\r\n`.
pub open spec fn crlf() -> Seq<u8> {
    seq![13u8, 10u8]
}

/// Wire encoding of one bulk element: `$<len>\r\n<payload>\r\n`.
pub open spec fn bulk_bytes(e: Seq<u8>) -> Seq<u8> {
    seq![36u8] + dec_digits(e.len()) + crlf() + e + crlf()
}

/// Wire encoding of a sequence of bulk elements, in order.
pub open spec fn elems_bytes(es: Seq<Seq<u8>>) -> Seq<u8>
    decreases es.len(),
{
    if es.len() == 0 {
        Seq::empty()
    } else {
        bulk_bytes(es[0]) + elems_bytes(es.drop_first())
    }
}

/// Wire encoding of a whole request frame: `*<count>\r\n` then the elements.
pub open spec fn frame_bytes(es: Seq<Seq<u8>>) -> Seq<u8> {
    seq![42u8] + dec_digits(es.len()) + crlf() + elems_bytes(es)
}

/// A fully decoded request frame: an ordered sequence of byte strings.
#[derive(Debug, PartialEq, Eq)]
pub struct Frame {
    pub elems: Vec<Vec<u8>>,
}

impl View for Frame {
    type V = Seq<Seq<u8>>;

    open spec fn view(&self) -> Seq<Seq<u8>> {
        self.elems.deep_view()
    }
}

/// Why `decode` returned no frame: the buffer holds a well-formed but
/// incomplete prefix, or it is malformed beyond repair.
#[derive(Debug, PartialEq, Eq, Structural)]
pub enum DecodeError {
    NeedMoreData,
    Protocol,
}

/// End of the run of ASCII digits that starts at `i`.
pub open spec fn digits_end(buf: Seq<u8>, i: int) -> int
    decreases buf.len() - i,
{
    if i < 0 {
        i
    } else if i >= buf.len() {
        buf.len() as int
    } else if is_digit(buf[i]) {
        digits_end(buf, i + 1)
    } else {
        i
    }
}

/// `digits_end` is exactly the boundary between a digit run and what follows.
pub proof fn lemma_digits_end_is(buf: Seq<u8>, i: int, j: int)
    requires
        0 <= i <= j <= buf.len(),
        forall|x: int| i <= x < j ==> is_digit(buf[x]),
        j == buf.len() || !is_digit(buf[j]),
    ensures
        digits_end(buf, i) == j,
    decreases j - i,
{
    if i < j {
        lemma_digits_end_is(buf, i + 1, j);
    }
}

/// Outcome of reading `<digits>\r\n` at a position of the buffer.
pub enum SpecNum {
    More,
    Bad,
    Num { val: nat, end: int },
}

/// Reads a decimal number terminated by `\r\n` starting at `i`: the value and
/// the position after the terminator, or why there is none.
pub open spec fn spec_scan_num(buf: Seq<u8>, i: int) -> SpecNum {
    let j = digits_end(buf, i);
    if j == i {
        if i >= buf.len() {
            SpecNum::More
        } else {
            SpecNum::Bad
        }
    } else if j - i > 9 {
        SpecNum::Bad
    } else if j >= buf.len() {
        SpecNum::More
    } else if buf[j] != 13 {
        SpecNum::Bad
    } else if j + 1 >= buf.len() {
        SpecNum::More
    } else if buf[j + 1] != 10 {
        SpecNum::Bad
    } else {
        SpecNum::Num { val: digits_val(buf.subrange(i, j)), end: j + 2 }
    }
}

/// Outcome of reading a run of bulk elements at a position of the buffer.
pub enum SpecElems {
    More,
    Bad,
    Elems { es: Seq<Seq<u8>>, end: int },
}

/// Reads `k` bulk elements starting at `i`: the payloads and the position
/// after the last one, or why the run stops short.
pub open spec fn spec_scan_elems(buf: Seq<u8>, i: int, k: nat) -> SpecElems
    decreases k,
{
    if k == 0 {
        SpecElems::Elems { es: Seq::empty(), end: i }
    } else if i >= buf.len() {
        SpecElems::More
    } else if buf[i] != 36 {
        SpecElems::Bad
    } else {
        match spec_scan_num(buf, i + 1) {
            SpecNum::More => SpecElems::More,
            SpecNum::Bad => SpecElems::Bad,
            SpecNum::Num { val: len, end: j } => {
                if j + len > buf.len() {
                    SpecElems::More
                } else if j + len + 2 > buf.len() {
                    if j + len < buf.len() && buf[j + len] != 13 {
                        SpecElems::Bad
                    } else {
                        SpecElems::More
                    }
                } else if buf[j + len] != 13 || buf[j + len + 1] != 10 {
                    SpecElems::Bad
                } else {
                    match spec_scan_elems(buf, j + len + 2, (k - 1) as nat) {
                        SpecElems::More => SpecElems::More,
                        SpecElems::Bad => SpecElems::Bad,
                        SpecElems::Elems { es, end } => SpecElems::Elems {
                            es: seq![buf.subrange(j, j + len)] + es,
                            end,
                        },
                    }
                }
            },
        }
    }
}

/// Outcome of decoding one frame from the front of the buffer.
pub enum SpecDecode {
    More,
    Bad,
    Frame { es: Seq<Seq<u8>>, used: int },
}

/// What `decode` finds at the front of `buf`: a complete frame and the bytes
/// it occupies, a well-formed but incomplete prefix, or a malformed buffer.
pub open spec fn spec_decode(buf: Seq<u8>) -> SpecDecode {
    if buf.len() == 0 {
        SpecDecode::More
    } else if buf[0] != 42 {
        SpecDecode::Bad
    } else {
        match spec_scan_num(buf, 1) {
            SpecNum::More => SpecDecode::More,
            SpecNum::Bad => SpecDecode::Bad,
            SpecNum::Num { val: count, end: i } => match spec_scan_elems(buf, i, count) {
                SpecElems::More => SpecDecode::More,
                SpecElems::Bad => SpecDecode::Bad,
                SpecElems::Elems { es, end } => SpecDecode::Frame { es, used: end },
            },
        }
    }
}

/// A frame that the wire format can carry: the element count and every
/// element length stay within the nine-digit limit.
pub open spec fn wf_frame(es: Seq<Seq<u8>>) -> bool {
    es.len() < 1000000000 && forall|i: int| 0 <= i < es.len() ==> es[i].len() < 1000000000
}

/// A canonically rendered number followed by `\r\n` scans back to itself.
proof fn lemma_scan_num_encoded(buf: Seq<u8>, i: int, v: nat)
    requires
        0 <= i,
        v < 1000000000,
        i + dec_digits(v).len() + 2 <= buf.len(),
        buf.subrange(i, i + dec_digits(v).len() + 2) == dec_digits(v) + crlf(),
    ensures
        spec_scan_num(buf, i) == (SpecNum::Num { val: v, end: i + dec_digits(v).len() + 2 }),
{
    let d = dec_digits(v);
    crate::bytes::lemma_dec_digits_val(v);
    assert(pow10(9) == 1000000000) by {
        reveal_with_fuel(pow10, 10);
    }
    crate::bytes::lemma_dec_digits_len(v, 9);
    assert forall|k: int| 0 <= k < d.len() + 2 implies buf[i + k] == (d + crlf())[k] by {
        assert(buf.subrange(i, i + d.len() + 2)[k] == buf[i + k]);
    }
    let j = i + d.len();
    assert forall|x: int| i <= x < j implies is_digit(buf[x]) by {
        assert(buf[x] == (d + crlf())[x - i]);
        assert((d + crlf())[x - i] == d[x - i]);
        assert(all_digits(d));
    }
    assert(buf[j] == (d + crlf())[d.len() as int]);
    assert(buf[j] == 13);
    assert(buf[j + 1] == (d + crlf())[d.len() as int + 1]);
    assert(buf[j + 1] == 10);
    assert(!is_digit(buf[j]));
    lemma_digits_end_is(buf, i, j);
    assert(buf.subrange(i, j) =~= d);
    assert(digits_val(buf.subrange(i, j)) == v);
}

/// A run of wire-encoded elements scans back to exactly those elements.
proof fn lemma_scan_elems_encoded(buf: Seq<u8>, i: int, es: Seq<Seq<u8>>)
    requires
        0 <= i,
        forall|x: int| 0 <= x < es.len() ==> es[x].len() < 1000000000,
        i + elems_bytes(es).len() <= buf.len(),
        buf.subrange(i, i + elems_bytes(es).len()) == elems_bytes(es),
    ensures
        spec_scan_elems(buf, i, es.len()) == (SpecElems::Elems {
            es,
            end: i + elems_bytes(es).len(),
        }),
    decreases es.len(),
{
    if es.len() == 0 {
        assert(es =~= Seq::<Seq<u8>>::empty());
    } else {
        let e0 = es[0];
        let rest = es.drop_first();
        let d = dec_digits(e0.len());
        let b0 = bulk_bytes(e0);
        let total = elems_bytes(es);
        assert(total == b0 + elems_bytes(rest));
        assert(b0.len() == 1 + d.len() + 2 + e0.len() + 2);
        assert forall|k: int| 0 <= k < total.len() implies buf[i + k] == total[k] by {
            assert(buf.subrange(i, i + total.len())[k] == buf[i + k]);
        }
        assert forall|k: int| 0 <= k < b0.len() implies buf[i + k] == b0[k] by {
            assert(total[k] == b0[k]);
        }
        // The element header: `$`, the length, `\r\n`.
        assert(b0[0] == 36u8) by {
            assert(b0 == seq![36u8] + d + crlf() + e0 + crlf());
        }
        assert(buf[i] == 36u8);
        assert(buf.subrange(i + 1, i + 1 + d.len() + 2) =~= d + crlf()) by {
            assert forall|k: int| 0 <= k < d.len() + 2 implies b0[1 + k] == (d + crlf())[k] by {
                assert(b0 == seq![36u8] + d + crlf() + e0 + crlf());
            }
        }
        assert(e0.len() < 1000000000);
        lemma_scan_num_encoded(buf, i + 1, e0.len());
        let j = i + 1 + d.len() + 2;
        // The payload and its trailing `\r\n`.
        let dl: int = d.len() as int;
        let el: int = e0.len() as int;
        assert forall|t: int| 0 <= t < el + 2 implies b0[3 + dl + t] == (e0 + crlf())[t] by {
            assert(b0 == seq![36u8] + d + crlf() + e0 + crlf());
        }
        assert(buf.subrange(j, j + el) =~= e0) by {
            assert forall|t: int| 0 <= t < el implies buf[j + t] == e0[t] by {
                assert(buf[i + (3 + dl + t)] == b0[3 + dl + t]);
                assert((e0 + crlf())[t] == e0[t]);
            }
        }
        assert(buf[j + el] == 13) by {
            assert(buf[i + (3 + dl + el)] == b0[3 + dl + el]);
            assert((e0 + crlf())[el] == 13);
        }
        assert(buf[j + el + 1] == 10) by {
            assert(buf[i + (3 + dl + el + 1)] == b0[3 + dl + el + 1]);
            assert((e0 + crlf())[el + 1] == 10);
        }
        // The remaining elements start right after this one.
        let i2 = i + b0.len();
        assert(j + e0.len() + 2 == i2);
        assert(buf.subrange(i2, i2 + elems_bytes(rest).len()) =~= elems_bytes(rest)) by {
            assert forall|k: int| 0 <= k < elems_bytes(rest).len() implies buf[i2 + k]
                == elems_bytes(rest)[k] by {
                assert(buf[i + (b0.len() + k)] == total[b0.len() + k]);
                assert(total[b0.len() + k] == elems_bytes(rest)[k]);
            }
        }
        assert forall|x: int| 0 <= x < rest.len() implies rest[x].len() < 1000000000 by {
            assert(rest[x] == es[x + 1]);
        }
        lemma_scan_elems_encoded(buf, i2, rest);
        assert(spec_scan_elems(buf, i2, (es.len() - 1) as nat) == (SpecElems::Elems {
            es: rest,
            end: i2 + elems_bytes(rest).len(),
        }));
        assert(seq![e0] + rest =~= es);
        assert(i2 + elems_bytes(rest).len() == i + total.len());
    }
}

/// Round trip through the wire format: the encoding of any well-formed
/// frame, followed by any further buffered bytes, decodes to exactly that
/// frame, consuming exactly the encoding.
pub proof fn lemma_frame_round_trip(es: Seq<Seq<u8>>, rest: Seq<u8>)
    requires
        wf_frame(es),
    ensures
        spec_decode(frame_bytes(es) + rest) == (SpecDecode::Frame {
            es,
            used: frame_bytes(es).len() as int,
        }),
{
    let buf = frame_bytes(es) + rest;
    let d = dec_digits(es.len());
    let fb = frame_bytes(es);
    assert(fb == seq![42u8] + d + crlf() + elems_bytes(es));
    assert forall|k: int| 0 <= k < fb.len() implies buf[k] == fb[k] by {
        assert((fb + rest)[k] == fb[k]);
    }
    assert(buf.len() >= fb.len());
    assert(buf[0] == 42u8);
    assert(buf.subrange(1, 3 + d.len() as int) =~= d + crlf()) by {
        assert forall|k: int| 0 <= k < d.len() + 2 implies fb[1 + k] == (d + crlf())[k] by {
            assert(fb == seq![42u8] + d + crlf() + elems_bytes(es));
        }
    }
    lemma_scan_num_encoded(buf, 1, es.len());
    let i: int = 3 + d.len() as int;
    assert(buf.subrange(i, i + elems_bytes(es).len()) =~= elems_bytes(es)) by {
        assert forall|k: int| 0 <= k < elems_bytes(es).len() implies buf[i + k] == elems_bytes(
            es,
        )[k] by {
            assert(fb[i + k] == (seq![42u8] + d + crlf() + elems_bytes(es))[i + k]);
        }
    }
    lemma_scan_elems_encoded(buf, i, es);
    assert(i + elems_bytes(es).len() == fb.len());
}

/// A buffer that ends inside a rendered number or its `\r\n` asks for more.
proof fn lemma_scan_num_prefix(buf: Seq<u8>, i: int, v: nat)
    requires
        0 <= i <= buf.len(),
        v < 1000000000,
        buf.len() < i + dec_digits(v).len() + 2,
        buf.subrange(i, buf.len() as int) == (dec_digits(v) + crlf()).take(buf.len() - i),
    ensures
        spec_scan_num(buf, i) is More,
{
    let d = dec_digits(v);
    let dl: int = d.len() as int;
    let m: int = buf.len() - i;
    crate::bytes::lemma_dec_digits_val(v);
    assert(pow10(9) == 1000000000) by {
        reveal_with_fuel(pow10, 10);
    }
    crate::bytes::lemma_dec_digits_len(v, 9);
    assert forall|k: int| 0 <= k < m implies buf[i + k] == (d + crlf())[k] by {
        assert(buf.subrange(i, buf.len() as int)[k] == buf[i + k]);
        assert((d + crlf()).take(m)[k] == (d + crlf())[k]);
    }
    if m <= dl {
        assert forall|x: int| i <= x < buf.len() implies is_digit(buf[x]) by {
            assert(buf[x] == (d + crlf())[x - i]);
            assert((d + crlf())[x - i] == d[x - i]);
            assert(all_digits(d));
        }
        lemma_digits_end_is(buf, i, buf.len() as int);
    } else {
        assert(m == dl + 1);
        assert forall|x: int| i <= x < i + dl implies is_digit(buf[x]) by {
            assert(buf[x] == (d + crlf())[x - i]);
            assert((d + crlf())[x - i] == d[x - i]);
            assert(all_digits(d));
        }
        assert(buf[i + dl] == (d + crlf())[dl]);
        assert(buf[i + dl] == 13);
        assert(!is_digit(buf[i + dl]));
        lemma_digits_end_is(buf, i, i + dl);
    }
}

/// A buffer that ends inside a run of wire-encoded elements asks for more.
proof fn lemma_scan_elems_prefix(buf: Seq<u8>, i: int, es: Seq<Seq<u8>>)
    requires
        0 <= i <= buf.len(),
        es.len() >= 1,
        forall|x: int| 0 <= x < es.len() ==> es[x].len() < 1000000000,
        buf.len() < i + elems_bytes(es).len(),
        buf.subrange(i, buf.len() as int) == elems_bytes(es).take(buf.len() - i),
    ensures
        spec_scan_elems(buf, i, es.len()) is More,
    decreases es.len(),
{
    let e0 = es[0];
    let rest = es.drop_first();
    let d = dec_digits(e0.len());
    let dl: int = d.len() as int;
    let el: int = e0.len() as int;
    let b0 = bulk_bytes(e0);
    let total = elems_bytes(es);
    let m: int = buf.len() - i;
    assert(total == b0 + elems_bytes(rest));
    assert(b0.len() == 3 + dl + el + 2);
    assert forall|k: int| 0 <= k < m implies buf[i + k] == total[k] by {
        assert(buf.subrange(i, buf.len() as int)[k] == buf[i + k]);
        assert(total.take(m)[k] == total[k]);
    }
    if m == 0 {
        assert(i >= buf.len());
    } else if m < b0.len() {
        assert forall|k: int| 0 <= k < m implies buf[i + k] == b0[k] by {
            assert(total[k] == b0[k]);
        }
        assert(b0[0] == 36u8) by {
            assert(b0 == seq![36u8] + d + crlf() + e0 + crlf());
        }
        assert(buf[i] == 36u8);
        assert forall|k: int| 0 <= k < dl + 2 && 1 + k < m implies b0[1 + k] == (d + crlf())[k] by {
            assert(b0 == seq![36u8] + d + crlf() + e0 + crlf());
        }
        if m < 3 + dl {
            // The cut falls inside the length or its delimiter.
            assert(buf.subrange(i + 1, buf.len() as int) =~= (d + crlf()).take(
                buf.len() - (i + 1),
            )) by {
                assert forall|k: int| 0 <= k < m - 1 implies buf[i + 1 + k] == (d + crlf())[k] by {
                    assert(buf[i + (1 + k)] == b0[1 + k]);
                }
            }
            assert(e0.len() < 1000000000);
            lemma_scan_num_prefix(buf, i + 1, e0.len());
        } else {
            // The length and its delimiter are complete; the cut falls in
            // the payload or its trailing delimiter.
            assert(buf.subrange(i + 1, i + 1 + dl + 2) =~= d + crlf()) by {
                assert forall|k: int| 0 <= k < dl + 2 implies buf[i + 1 + k] == (d + crlf())[k] by {
                    assert(buf[i + (1 + k)] == b0[1 + k]);
                }
            }
            assert(e0.len() < 1000000000);
            lemma_scan_num_encoded(buf, i + 1, e0.len());
            let j = i + 3 + dl;
            if j + el > buf.len() {
            } else {
                // The payload is complete; at most one delimiter byte is
                // present, and where present it reads `\r`.
                assert(j + el + 2 > buf.len());
                if j + el < buf.len() {
                    assert(buf[i + (3 + dl + el)] == b0[3 + dl + el]);
                    assert(b0[3 + dl + el] == (e0 + crlf())[el]) by {
                        assert(b0 == seq![36u8] + d + crlf() + e0 + crlf());
                    }
                    assert(buf[j + el] == 13);
                }
            }
        }
    } else {
        // The first element is complete; the cut falls in the remainder.
        assert forall|k: int| 0 <= k < b0.len() implies buf[i + k] == b0[k] by {
            assert(total[k] == b0[k]);
        }
        assert(b0[0] == 36u8) by {
            assert(b0 == seq![36u8] + d + crlf() + e0 + crlf());
        }
        assert(buf[i] == 36u8);
        assert(buf.subrange(i + 1, i + 1 + dl + 2) =~= d + crlf()) by {
            assert forall|k: int| 0 <= k < dl + 2 implies buf[i + 1 + k] == (d + crlf())[k] by {
                assert(buf[i + (1 + k)] == b0[1 + k]);
                assert(b0[1 + k] == (d + crlf())[k]) by {
                    assert(b0 == seq![36u8] + d + crlf() + e0 + crlf());
                }
            }
        }
        assert(e0.len() < 1000000000);
        lemma_scan_num_encoded(buf, i + 1, e0.len());
        let j = i + 3 + dl;
        assert forall|t: int| 0 <= t < el + 2 implies b0[3 + dl + t] == (e0 + crlf())[t] by {
            assert(b0 == seq![36u8] + d + crlf() + e0 + crlf());
        }
        assert(buf[j + el] == 13) by {
            assert(buf[i + (3 + dl + el)] == b0[3 + dl + el]);
            assert((e0 + crlf())[el] == 13);
        }
        assert(buf[j + el + 1] == 10) by {
            assert(buf[i + (3 + dl + el + 1)] == b0[3 + dl + el + 1]);
            assert((e0 + crlf())[el + 1] == 10);
        }
        let i2 = i + b0.len();
        assert(elems_bytes(rest).len() > buf.len() - i2);
        assert(rest.len() >= 1) by {
            if rest.len() == 0 {
                assert(elems_bytes(rest).len() == 0);
            }
        }
        assert(buf.subrange(i2, buf.len() as int) =~= elems_bytes(rest).take(buf.len() - i2)) by {
            assert forall|k: int| 0 <= k < buf.len() - i2 implies buf[i2 + k] == elems_bytes(
                rest,
            )[k] by {
                assert(buf[i + (b0.len() + k)] == total[b0.len() + k]);
                assert(total[b0.len() + k] == elems_bytes(rest)[k]);
            }
        }
        assert forall|x: int| 0 <= x < rest.len() implies rest[x].len() < 1000000000 by {
            assert(rest[x] == es[x + 1]);
        }
        lemma_scan_elems_prefix(buf, i2, rest);
    }
}

/// No well-formed frame is ever partially decodable: every proper prefix of
/// its encoding asks for more bytes, never yielding an error and never a
/// frame, so a decoder may accumulate fragmented input until the frame is
/// complete.
pub proof fn lemma_frame_prefix_needs_more(es: Seq<Seq<u8>>, n: int)
    requires
        wf_frame(es),
        0 <= n < frame_bytes(es).len(),
    ensures
        spec_decode(frame_bytes(es).take(n)) is More,
{
    let fb = frame_bytes(es);
    let buf = fb.take(n);
    let d = dec_digits(es.len());
    let dl: int = d.len() as int;
    assert(fb == seq![42u8] + d + crlf() + elems_bytes(es));
    assert forall|k: int| 0 <= k < n implies buf[k] == fb[k] by {
        assert(fb.take(n)[k] == fb[k]);
    }
    if n == 0 {
    } else {
        assert(buf[0] == fb[0]);
        assert(fb[0] == 42u8);
        if n < 3 + dl {
            assert(buf.subrange(1, n) =~= (d + crlf()).take(n - 1)) by {
                assert forall|k: int| 0 <= k < n - 1 implies buf[1 + k] == (d + crlf())[k] by {
                    assert(fb[1 + k] == (seq![42u8] + d + crlf() + elems_bytes(es))[1 + k]);
                }
            }
            lemma_scan_num_prefix(buf, 1, es.len());
        } else {
            assert(buf.subrange(1, 3 + dl) =~= d + crlf()) by {
                assert forall|k: int| 0 <= k < dl + 2 implies buf[1 + k] == (d + crlf())[k] by {
                    assert(fb[1 + k] == (seq![42u8] + d + crlf() + elems_bytes(es))[1 + k]);
                }
            }
            lemma_scan_num_encoded(buf, 1, es.len());
            let i: int = 3 + dl;
            assert(elems_bytes(es).len() > n - i);
            assert(es.len() >= 1) by {
                if es.len() == 0 {
                    assert(elems_bytes(es).len() == 0);
                }
            }
            assert(buf.subrange(i, n) =~= elems_bytes(es).take(n - i)) by {
                assert forall|k: int| 0 <= k < n - i implies buf[i + k] == elems_bytes(es)[k] by {
                    assert(fb[i + k] == (seq![42u8] + d + crlf() + elems_bytes(es))[i + k]);
                }
            }
            lemma_scan_elems_prefix(buf, i, es);
        }
    }
}

enum NumScan {
    More,
    Bad,
    Num { val: u64, end: usize },
}

fn scan_num(buf: &Vec<u8>, i: usize) -> (r: NumScan)
    requires
        i <= buf.len(),
    ensures
        match r {
            NumScan::More => spec_scan_num(buf@, i as int) is More,
            NumScan::Bad => spec_scan_num(buf@, i as int) is Bad,
            NumScan::Num { val, end } => {
                &&& spec_scan_num(buf@, i as int) == (SpecNum::Num {
                    val: val as nat,
                    end: end as int,
                })
                &&& i < end <= buf.len()
                &&& val < 1000000000
            },
        },
{
    let mut j: usize = i;
    while j < buf.len()
        invariant_except_break
            i <= j <= buf.len(),
            forall|x: int| i <= x < j ==> is_digit(buf@[x]),
        ensures
            i <= j <= buf.len(),
            forall|x: int| i <= x < j ==> is_digit(buf@[x]),
            j == buf.len() || !is_digit(buf@[j as int]),
        decreases buf.len() - j,
    {
        let b = buf[j];
        if !(48 <= b && b <= 57) {
            break;
        }
        j += 1;
    }
    proof {
        lemma_digits_end_is(buf@, i as int, j as int);
    }
    if j == i {
        if i >= buf.len() {
            return NumScan::More;
        } else {
            return NumScan::Bad;
        }
    }
    if j - i > 9 {
        return NumScan::Bad;
    }
    if j >= buf.len() {
        return NumScan::More;
    }
    if buf[j] != 13 {
        return NumScan::Bad;
    }
    if j + 1 >= buf.len() {
        return NumScan::More;
    }
    if buf[j + 1] != 10 {
        return NumScan::Bad;
    }
    // The digit run is 1..=9 digits long; read its value.
    let mut val: u64 = 0;
    let mut k: usize = i;
    while k < j
        invariant
            i <= k <= j <= buf.len(),
            j - i <= 9,
            forall|x: int| i <= x < j ==> is_digit(buf@[x]),
            val == digits_val(buf@.subrange(i as int, k as int)),
            val < pow10((k - i) as nat),
        decreases j - k,
    {
        proof {
            lemma_digits_val_bound(buf@.subrange(i as int, k as int));
            assert(pow10((k - i) as nat) <= pow10(8)) by {
                crate::bytes::lemma_pow10_mono((k - i) as nat, 8);
            }
            assert(pow10(8) == 100000000) by {
                reveal_with_fuel(pow10, 10);
            }
        }
        let b = buf[k];
        val = val * 10 + ((b - 48) as u64);
        proof {
            let s1 = buf@.subrange(i as int, (k + 1) as int);
            assert(s1.drop_last() =~= buf@.subrange(i as int, k as int));
            assert(s1.last() == buf@[k as int]);
            assert(val == digits_val(s1));
        }
        k += 1;
    }
    proof {
        assert(pow10(9) == 1000000000) by {
            reveal_with_fuel(pow10, 10);
        }
        crate::bytes::lemma_pow10_mono((j - i) as nat, 9);
    }
    NumScan::Num { val, end: j + 2 }
}

enum ElemsScan {
    More,
    Bad,
    Elems { es: Vec<Vec<u8>>, end: usize },
}

/// Maps `Elems { es, end }` to `Elems { pre + es, end }` and keeps the other
/// outcomes as they are.
pub open spec fn elems_prepend(pre: Seq<Seq<u8>>, r: SpecElems) -> SpecElems {
    match r {
        SpecElems::More => SpecElems::More,
        SpecElems::Bad => SpecElems::Bad,
        SpecElems::Elems { es, end } => SpecElems::Elems { es: pre + es, end },
    }
}

proof fn lemma_prepend_compose(a: Seq<Seq<u8>>, b: Seq<Seq<u8>>, r: SpecElems)
    ensures
        elems_prepend(a, elems_prepend(b, r)) == elems_prepend(a + b, r),
{
    match r {
        SpecElems::Elems { es, end } => {
            assert(a + (b + es) =~= (a + b) + es);
        },
        _ => {},
    }
}

/// One successful element at `i` reduces a scan of `k` elements to a scan of
/// `k - 1` elements after it.
proof fn lemma_scan_elems_step(buf: Seq<u8>, i: int, k: nat, len: nat, j: int)
    requires
        k > 0,
        0 <= i < buf.len(),
        buf[i] == 36,
        spec_scan_num(buf, i + 1) == (SpecNum::Num { val: len, end: j }),
        j + len + 2 <= buf.len(),
        j >= 0,
        buf[j + len] == 13,
        buf[j + len + 1] == 10,
    ensures
        spec_scan_elems(buf, i, k) == elems_prepend(
            seq![buf.subrange(j, j + len)],
            spec_scan_elems(buf, j + len + 2, (k - 1) as nat),
        ),
{
    let rec = spec_scan_elems(buf, j + len + 2, (k - 1) as nat);
    match rec {
        SpecElems::More => {},
        SpecElems::Bad => {},
        SpecElems::Elems { es, end } => {},
    }
}

fn scan_elems(buf: &Vec<u8>, start: usize, count: u64) -> (r: ElemsScan)
    requires
        start <= buf.len(),
    ensures
        match r {
            ElemsScan::More => spec_scan_elems(buf@, start as int, count as nat) is More,
            ElemsScan::Bad => spec_scan_elems(buf@, start as int, count as nat) is Bad,
            ElemsScan::Elems { es, end } => {
                &&& spec_scan_elems(buf@, start as int, count as nat) == (SpecElems::Elems {
                    es: es.deep_view(),
                    end: end as int,
                })
                &&& start <= end <= buf.len()
            },
        },
{
    let mut cur: usize = start;
    let mut rem: u64 = count;
    let mut acc: Vec<Vec<u8>> = Vec::new();
    while rem > 0
        invariant
            start <= cur <= buf.len(),
            spec_scan_elems(buf@, start as int, count as nat) == elems_prepend(
                acc.deep_view(),
                spec_scan_elems(buf@, cur as int, rem as nat),
            ),
        decreases rem,
    {
        if cur >= buf.len() {
            return ElemsScan::More;
        }
        if buf[cur] != 36 {
            return ElemsScan::Bad;
        }
        match scan_num(buf, cur + 1) {
            NumScan::More => {
                return ElemsScan::More;
            },
            NumScan::Bad => {
                return ElemsScan::Bad;
            },
            NumScan::Num { val, end: j } => {
                let len_: usize = val as usize;
                if len_ > buf.len() - j {
                    return ElemsScan::More;
                }
                if buf.len() - (j + len_) < 2 {
                    if j + len_ < buf.len() && buf[j + len_] != 13 {
                        return ElemsScan::Bad;
                    }
                    return ElemsScan::More;
                }
                if buf[j + len_] != 13 || buf[j + len_ + 1] != 10 {
                    return ElemsScan::Bad;
                }
                let payload = copy_range(buf, j, j + len_);
                let ghost old_acc = acc.deep_view();
                acc.push(payload);
                proof {
                    assert(acc.deep_view() =~~= old_acc + seq![buf@.subrange(j as int, j as int + len_ as int)]);
                    lemma_scan_elems_step(
                        buf@,
                        cur as int,
                        rem as nat,
                        val as nat,
                        j as int,
                    );
                    lemma_prepend_compose(
                        old_acc,
                        seq![buf@.subrange(j as int, j as int + len_ as int)],
                        spec_scan_elems(buf@, j as int + len_ as int + 2, (rem - 1) as nat),
                    );
                }
                cur = j + len_ + 2;
                rem = rem - 1;
            },
        }
    }
    proof {
        assert(spec_scan_elems(buf@, cur as int, 0) == (SpecElems::Elems {
            es: Seq::<Seq<u8>>::empty(),
            end: cur as int,
        }));
        assert(acc.deep_view() + Seq::<Seq<u8>>::empty() =~= acc.deep_view());
    }
    ElemsScan::Elems { es: acc, end: cur }
}

/// Decodes one frame from the front of `buf`.
///
/// Returns the frame and how many bytes it occupied, so that the caller can
/// keep the remaining bytes for the next frame; `NeedMoreData` when the buffer
/// holds a well-formed but incomplete prefix; `Protocol` when it is malformed.
pub fn decode(buf: &Vec<u8>) -> (r: Result<(Frame, usize), DecodeError>)
    ensures
        match r {
            Ok(p) => {
                &&& spec_decode(buf@) == (SpecDecode::Frame { es: p.0@, used: p.1 as int })
                &&& p.1 <= buf.len()
            },
            Err(DecodeError::NeedMoreData) => spec_decode(buf@) is More,
            Err(DecodeError::Protocol) => spec_decode(buf@) is Bad,
        },
{
    if buf.len() == 0 {
        return Err(DecodeError::NeedMoreData);
    }
    if buf[0] != 42 {
        return Err(DecodeError::Protocol);
    }
    match scan_num(buf, 1) {
        NumScan::More => Err(DecodeError::NeedMoreData),
        NumScan::Bad => Err(DecodeError::Protocol),
        NumScan::Num { val: count, end } => match scan_elems(buf, end, count) {
            ElemsScan::More => Err(DecodeError::NeedMoreData),
            ElemsScan::Bad => Err(DecodeError::Protocol),
            ElemsScan::Elems { es, end: used } => Ok((Frame { elems: es }, used)),
        },
    }
}

/// A reply to send back over the wire.
///
/// Status and error replies carry a line of text; a bulk reply carries an
/// arbitrary byte string; `Null` is the absent bulk reply; an array reply
/// carries a sequence of byte strings, each sent as a bulk element.
pub enum Reply {
    Status(Vec<u8>),
    Error(Vec<u8>),
    Bulk(Vec<u8>),
    Null,
    Array(Vec<Vec<u8>>),
}

/// Mathematical image of a [`Reply`].
pub enum ReplyV {
    Status(Seq<u8>),
    Error(Seq<u8>),
    Bulk(Seq<u8>),
    Null,
    Array(Seq<Seq<u8>>),
}

impl View for Reply {
    type V = ReplyV;

    open spec fn view(&self) -> ReplyV {
        match self {
            Reply::Status(s) => ReplyV::Status(s@),
            Reply::Error(s) => ReplyV::Error(s@),
            Reply::Bulk(p) => ReplyV::Bulk(p@),
            Reply::Null => ReplyV::Null,
            Reply::Array(es) => ReplyV::Array(es.deep_view()),
        }
    }
}

/// The exact bytes that encode a reply: status `+<text>\r\n`, error
/// `-<text>\r\n`, bulk `$<len>\r\n<bytes>\r\n`, null bulk `$-1\r\n`, array
/// `*<count>\r\n` followed by each element as a bulk.
pub open spec fn reply_bytes(r: ReplyV) -> Seq<u8> {
    match r {
        ReplyV::Status(s) => seq![43u8] + s + crlf(),
        ReplyV::Error(s) => seq![45u8] + s + crlf(),
        ReplyV::Bulk(p) => bulk_bytes(p),
        ReplyV::Null => seq![36u8, 45u8, 49u8, 13u8, 10u8],
        ReplyV::Array(es) => seq![42u8] + dec_digits(es.len()) + crlf() + elems_bytes(es),
    }
}

/// Splitting a run of elements splits its encoding.
pub proof fn lemma_elems_bytes_concat(a: Seq<Seq<u8>>, b: Seq<Seq<u8>>)
    ensures
        elems_bytes(a + b) == elems_bytes(a) + elems_bytes(b),
    decreases a.len(),
{
    if a.len() == 0 {
        assert(a + b =~= b);
        assert(elems_bytes(a) + elems_bytes(b) =~= elems_bytes(b));
    } else {
        assert((a + b).len() > 0);
        assert((a + b)[0] == a[0]);
        assert((a + b).drop_first() =~= a.drop_first() + b);
        lemma_elems_bytes_concat(a.drop_first(), b);
        assert(bulk_bytes(a[0]) + (elems_bytes(a.drop_first()) + elems_bytes(b)) =~= (bulk_bytes(
            a[0],
        ) + elems_bytes(a.drop_first())) + elems_bytes(b));
    }
}

fn push_crlf(out: &mut Vec<u8>)
    ensures
        final(out)@ == old(out)@ + crlf(),
{
    out.push(13);
    out.push(10);
    assert(out@ =~= old(out)@ + crlf());
}

fn push_all(out: &mut Vec<u8>, p: &Vec<u8>)
    ensures
        final(out)@ == old(out)@ + p@,
{
    let n = p.len();
    let mut i: usize = 0;
    while i < n
        invariant
            n == p.len(),
            i <= n,
            out@ == old(out)@ + p@.subrange(0, i as int),
        decreases n - i,
    {
        out.push(p[i]);
        assert(out@ =~= old(out)@ + p@.subrange(0, (i + 1) as int));
        i += 1;
    }
    assert(p@.subrange(0, n as int) =~= p@);
}

fn push_bulk(out: &mut Vec<u8>, p: &Vec<u8>)
    ensures
        final(out)@ == old(out)@ + bulk_bytes(p@),
{
    out.push(36);
    push_dec(p.len() as u64, out);
    push_crlf(out);
    push_all(out, p);
    push_crlf(out);
    assert(out@ =~= old(out)@ + bulk_bytes(p@));
}

/// Encodes a run of byte strings as an array reply: `*<count>\r\n` followed
/// by each element as a bulk element, in the given order.
pub fn bulk_response(items: &Vec<Vec<u8>>) -> (r: Vec<u8>)
    ensures
        r@ == reply_bytes(ReplyV::Array(items.deep_view())),
{
    let mut out: Vec<u8> = Vec::new();
    out.push(42);
    push_dec(items.len() as u64, &mut out);
    push_crlf(&mut out);
    let ghost header = out@;
    let n = items.len();
    let mut i: usize = 0;
    while i < n
        invariant
            n == items.len(),
            i <= n,
            out@ == header + elems_bytes(items.deep_view().take(i as int)),
        decreases n - i,
    {
        push_bulk(&mut out, &items[i]);
        proof {
            let dv = items.deep_view();
            assert(dv.take(i as int + 1) =~= dv.take(i as int) + seq![dv[i as int]]);
            lemma_elems_bytes_concat(dv.take(i as int), seq![dv[i as int]]);
            assert(elems_bytes(seq![dv[i as int]]) =~= bulk_bytes(dv[i as int])) by {
                let single = seq![dv[i as int]];
                assert(single.len() == 1);
                assert(single[0] == dv[i as int]);
                assert(single.drop_first() =~= Seq::<Seq<u8>>::empty());
                assert(elems_bytes(single) == bulk_bytes(single[0]) + elems_bytes(
                    single.drop_first(),
                ));
                assert(elems_bytes(Seq::<Seq<u8>>::empty()) =~= Seq::<u8>::empty());
                assert(bulk_bytes(single[0]) + Seq::<u8>::empty() =~= bulk_bytes(single[0]));
            }
            assert(dv[i as int] == items[i as int].deep_view());
            assert(items[i as int].deep_view() =~= items[i as int]@);
            assert(out@ =~= header + elems_bytes(dv.take(i as int + 1)));
        }
        i += 1;
    }
    proof {
        assert(items.deep_view().take(n as int) =~= items.deep_view());
        assert(out@ =~= reply_bytes(ReplyV::Array(items.deep_view())));
    }
    out
}

/// Encodes a reply into the exact bytes to send back.
pub fn encode(r: &Reply) -> (out: Vec<u8>)
    ensures
        out@ == reply_bytes(r@),
{
    match r {
        Reply::Status(s) => {
            let mut out: Vec<u8> = Vec::new();
            out.push(43);
            push_all(&mut out, s);
            push_crlf(&mut out);
            assert(out@ =~= reply_bytes(r@));
            out
        },
        Reply::Error(s) => {
            let mut out: Vec<u8> = Vec::new();
            out.push(45);
            push_all(&mut out, s);
            push_crlf(&mut out);
            assert(out@ =~= reply_bytes(r@));
            out
        },
        Reply::Bulk(p) => {
            let mut out: Vec<u8> = Vec::new();
            push_bulk(&mut out, p);
            assert(out@ =~= reply_bytes(r@));
            out
        },
        Reply::Null => {
            let mut out: Vec<u8> = Vec::new();
            out.push(36);
            out.push(45);
            out.push(49);
            push_crlf(&mut out);
            assert(out@ =~= reply_bytes(r@));
            out
        },
        Reply::Array(es) => bulk_response(es),
    }
}

} // verus!
