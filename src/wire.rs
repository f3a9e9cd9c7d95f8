//! A compact binary encoding: little-endian integers, length-prefixed
//! sequences and one-byte tags, with exact decoders.
use vstd::prelude::*;
use vstd::slice::{slice_subrange, slice_to_vec};
use vstd::utf8::{
    decode_utf8,
    encode_utf8,
    encode_utf8_decode_utf8,
    decode_utf8_encode_utf8,
    encode_utf8_valid_utf8,
    valid_utf8,
};

verus! {

/// `e` stands in `b` from position `pos` on.
pub open spec fn lies_at(e: Seq<u8>, b: Seq<u8>, pos: int) -> bool {
    0 <= pos && pos + e.len() <= b.len() && b.subrange(pos, pos + e.len()) == e
}

pub proof fn lemma_lies_at_concat(a: Seq<u8>, c: Seq<u8>, b: Seq<u8>, pos: int)
    ensures
        lies_at(a + c, b, pos) <==> (lies_at(a, b, pos) && lies_at(c, b, pos + a.len())),
{
    let n = a.len() as int;
    let k = c.len() as int;
    if lies_at(a + c, b, pos) {
        assert forall|i: int| 0 <= i < n implies b.subrange(pos, pos + n)[i] == a[i] by {
            assert(b.subrange(pos, pos + n + k)[i] == (a + c)[i]);
        }
        assert forall|i: int| 0 <= i < k implies b.subrange(pos + n, pos + n + k)[i] == c[i] by {
            assert(b.subrange(pos, pos + n + k)[n + i] == (a + c)[n + i]);
        }
        assert(b.subrange(pos, pos + n) =~= a);
        assert(b.subrange(pos + n, pos + n + k) =~= c);
    }
    if lies_at(a, b, pos) && lies_at(c, b, pos + n) {
        assert forall|i: int| 0 <= i < n + k implies b.subrange(pos, pos + n + k)[i] == (a
            + c)[i] by {
            if i < n {
                assert(b.subrange(pos, pos + n)[i] == a[i]);
            } else {
                assert(b.subrange(pos + n, pos + n + k)[i - n] == c[i - n]);
            }
        }
        assert(b.subrange(pos, pos + n + k) =~= a + c);
    }
}

/// The eight bytes of `x`, least significant first.
pub open spec fn le_bytes(x: u64) -> Seq<u8> {
    seq![
        x as u8,
        (x >> 8) as u8,
        (x >> 16) as u8,
        (x >> 24) as u8,
        (x >> 32) as u8,
        (x >> 40) as u8,
        (x >> 48) as u8,
        (x >> 56) as u8,
    ]
}

pub open spec fn le_value(b0: u8, b1: u8, b2: u8, b3: u8, b4: u8, b5: u8, b6: u8, b7: u8) -> u64 {
    (b0 as u64) | ((b1 as u64) << 8) | ((b2 as u64) << 16) | ((b3 as u64) << 24) | ((b4 as u64)
        << 32) | ((b5 as u64) << 40) | ((b6 as u64) << 48) | ((b7 as u64) << 56)
}

proof fn lemma_le_value_bytes(b0: u8, b1: u8, b2: u8, b3: u8, b4: u8, b5: u8, b6: u8, b7: u8)
    ensures
        ({
            let x = le_value(b0, b1, b2, b3, b4, b5, b6, b7);
            x as u8 == b0 && (x >> 8) as u8 == b1 && (x >> 16) as u8 == b2 && (x >> 24) as u8 == b3
                && (x >> 32) as u8 == b4 && (x >> 40) as u8 == b5 && (x >> 48) as u8 == b6 && (x
                >> 56) as u8 == b7
        }),
{
    let x = le_value(b0, b1, b2, b3, b4, b5, b6, b7);
    assert(x == (b0 as u64) | ((b1 as u64) << 8) | ((b2 as u64) << 16) | ((b3 as u64) << 24) | ((
    b4 as u64) << 32) | ((b5 as u64) << 40) | ((b6 as u64) << 48) | ((b7 as u64) << 56));
    assert(x as u8 == b0 && (x >> 8) as u8 == b1 && (x >> 16) as u8 == b2 && (x >> 24) as u8 == b3
        && (x >> 32) as u8 == b4 && (x >> 40) as u8 == b5 && (x >> 48) as u8 == b6 && (x >> 56) as u8
        == b7) by (bit_vector)
        requires
            x == (b0 as u64) | ((b1 as u64) << 8) | ((b2 as u64) << 16) | ((b3 as u64) << 24) | ((
            b4 as u64) << 32) | ((b5 as u64) << 40) | ((b6 as u64) << 48) | ((b7 as u64) << 56),
    ;
}

proof fn lemma_le_bytes_injective(x: u64, y: u64)
    requires
        le_bytes(x) == le_bytes(y),
    ensures
        x == y,
{
    assert(le_bytes(x)[0] == le_bytes(y)[0] && le_bytes(x)[1] == le_bytes(y)[1] && le_bytes(x)[2]
        == le_bytes(y)[2] && le_bytes(x)[3] == le_bytes(y)[3] && le_bytes(x)[4] == le_bytes(y)[4]
        && le_bytes(x)[5] == le_bytes(y)[5] && le_bytes(x)[6] == le_bytes(y)[6] && le_bytes(x)[7]
        == le_bytes(y)[7]);
    assert(x == y) by (bit_vector)
        requires
            x as u8 == y as u8,
            (x >> 8) as u8 == (y >> 8) as u8,
            (x >> 16) as u8 == (y >> 16) as u8,
            (x >> 24) as u8 == (y >> 24) as u8,
            (x >> 32) as u8 == (y >> 32) as u8,
            (x >> 40) as u8 == (y >> 40) as u8,
            (x >> 48) as u8 == (y >> 48) as u8,
            (x >> 56) as u8 == (y >> 56) as u8,
    ;
}

/// A value with an exact binary encoding: `put` appends `wire(model)`, and
/// `take` reads back the one value whose encoding stands at a position.
pub trait Wire: Sized {
    type Model;

    spec fn model(&self) -> Self::Model;

    spec fn wire(m: Self::Model) -> Seq<u8>;

    proof fn lemma_wire_nonempty(m: Self::Model)
        ensures
            Self::wire(m).len() >= 1,
    ;

    fn put(&self, out: &mut Vec<u8>)
        ensures
            final(out)@ == old(out)@ + Self::wire(self.model()),
    ;

    fn take(b: &[u8], pos: usize) -> (r: Option<(Self, usize)>)
        ensures
            match r {
                Some((v, end)) => {
                    &&& end == pos + Self::wire(v.model()).len()
                    &&& lies_at(Self::wire(v.model()), b@, pos as int)
                    &&& forall|m: Self::Model| #[trigger]
                        lies_at(Self::wire(m), b@, pos as int) ==> m == v.model()
                },
                None => forall|m: Self::Model| !#[trigger] lies_at(Self::wire(m), b@, pos as int),
            },
    ;
}

impl Wire for u64 {
    type Model = u64;

    open spec fn model(&self) -> u64 {
        *self
    }

    open spec fn wire(m: u64) -> Seq<u8> {
        le_bytes(m)
    }

    proof fn lemma_wire_nonempty(m: u64) {
    }

    fn put(&self, out: &mut Vec<u8>) {
        let x = *self;
        out.push(x as u8);
        out.push((x >> 8) as u8);
        out.push((x >> 16) as u8);
        out.push((x >> 24) as u8);
        out.push((x >> 32) as u8);
        out.push((x >> 40) as u8);
        out.push((x >> 48) as u8);
        out.push((x >> 56) as u8);
        assert(Self::wire(self.model()) == le_bytes(x));
        assert(final(out)@ =~= old(out)@ + le_bytes(x));
    }

    fn take(b: &[u8], pos: usize) -> (r: Option<(u64, usize)>) {
        if pos > b.len() || b.len() - pos < 8 {
            assert forall|m: u64| !#[trigger] lies_at(le_bytes(m), b@, pos as int) by {}
            return None;
        }
        let x = (b[pos] as u64) | ((b[pos + 1] as u64) << 8) | ((b[pos + 2] as u64) << 16) | ((b[pos
            + 3] as u64) << 24) | ((b[pos + 4] as u64) << 32) | ((b[pos + 5] as u64) << 40) | ((b[pos
            + 6] as u64) << 48) | ((b[pos + 7] as u64) << 56);
        proof {
            lemma_le_value_bytes(
                b@[pos as int],
                b@[pos + 1],
                b@[pos + 2],
                b@[pos + 3],
                b@[pos + 4],
                b@[pos + 5],
                b@[pos + 6],
                b@[pos + 7],
            );
            assert(b@.subrange(pos as int, pos + 8) =~= le_bytes(x));
            assert forall|m: u64| #[trigger] lies_at(le_bytes(m), b@, pos as int) implies m == x by {
                lemma_le_bytes_injective(m, x);
            }
        }
        Some((x, pos + 8))
    }
}

impl Wire for u8 {
    type Model = u8;

    open spec fn model(&self) -> u8 {
        *self
    }

    open spec fn wire(m: u8) -> Seq<u8> {
        seq![m]
    }

    proof fn lemma_wire_nonempty(m: u8) {
    }

    fn put(&self, out: &mut Vec<u8>) {
        out.push(*self);
        assert(final(out)@ =~= old(out)@ + seq![*self]);
    }

    fn take(b: &[u8], pos: usize) -> (r: Option<(u8, usize)>) {
        if pos >= b.len() {
            assert forall|m: u8| !#[trigger] lies_at(Self::wire(m), b@, pos as int) by {
                assert(Self::wire(m).len() == 1);
            }
            return None;
        }
        let x = b[pos];
        proof {
            assert(b@.subrange(pos as int, pos + 1) =~= Self::wire(x));
            assert(x.model() == x);
            assert(lies_at(Self::wire(x.model()), b@, pos as int));
            assert forall|m: u8| #[trigger] lies_at(Self::wire(m), b@, pos as int) implies m == x by {
                assert(Self::wire(m) == seq![m]);
                assert(b@.subrange(pos as int, pos + 1)[0] == m);
            }
        }
        Some((x, pos + 1))
    }
}

/// Reads the eight bytes at `pos` as a `u64`, with what `u64::take` states
/// spelt out over `le_bytes`.
fn take_u64(b: &[u8], pos: usize) -> (r: Option<(u64, usize)>)
    ensures
        match r {
            Some((x, end)) => {
                &&& end == pos + 8
                &&& lies_at(le_bytes(x), b@, pos as int)
                &&& forall|m: u64| #[trigger] lies_at(le_bytes(m), b@, pos as int) ==> m == x
            },
            None => forall|m: u64| !#[trigger] lies_at(le_bytes(m), b@, pos as int),
        },
{
    let r = <u64 as Wire>::take(b, pos);
    proof {
        match r {
            Some((x, end)) => {
                assert forall|m: u64| #[trigger] lies_at(le_bytes(m), b@, pos as int) implies m
                    == x by {
                    assert(lies_at(<u64 as Wire>::wire(m), b@, pos as int));
                }
            },
            None => {
                assert forall|m: u64| !#[trigger] lies_at(le_bytes(m), b@, pos as int) by {
                    assert(!lies_at(<u64 as Wire>::wire(m), b@, pos as int));
                }
            },
        }
    }
    r
}

impl Wire for u32 {
    type Model = u32;

    open spec fn model(&self) -> u32 {
        *self
    }

    open spec fn wire(m: u32) -> Seq<u8> {
        le_bytes(m as u64)
    }

    proof fn lemma_wire_nonempty(m: u32) {
    }

    fn put(&self, out: &mut Vec<u8>) {
        (*self as u64).put(out);
    }

    fn take(b: &[u8], pos: usize) -> (r: Option<(u32, usize)>) {
        match take_u64(b, pos) {
            None => {
                assert forall|m: u32| !#[trigger] lies_at(le_bytes(m as u64), b@, pos as int) by {}
                None
            },
            Some((x, end)) => {
                if x > 0xffff_ffff {
                    assert forall|m: u32| !#[trigger] lies_at(le_bytes(m as u64), b@, pos as int) by {}
                    None
                } else {
                    let y = x as u32;
                    assert(y as u64 == x);
                    assert forall|m: u32| #[trigger] lies_at(le_bytes(m as u64), b@, pos as int) implies m
                        == y by {}
                    Some((y, end))
                }
            },
        }
    }
}

impl Wire for i64 {
    type Model = i64;

    open spec fn model(&self) -> i64 {
        *self
    }

    open spec fn wire(m: i64) -> Seq<u8> {
        le_bytes(m as u64)
    }

    proof fn lemma_wire_nonempty(m: i64) {
    }

    fn put(&self, out: &mut Vec<u8>) {
        (*self as u64).put(out);
    }

    fn take(b: &[u8], pos: usize) -> (r: Option<(i64, usize)>) {
        match take_u64(b, pos) {
            None => {
                assert forall|m: i64| !#[trigger] lies_at(le_bytes(m as u64), b@, pos as int) by {}
                None
            },
            Some((x, end)) => {
                let y = x as i64;
                assert((y as u64) == x) by (bit_vector)
                    requires
                        y == x as i64,
                ;
                assert forall|m: i64| #[trigger] lies_at(le_bytes(m as u64), b@, pos as int) implies m
                    == y by {
                    let mm = m as u64;
                    assert(mm == x);
                    assert(m == y) by (bit_vector)
                        requires
                            mm == m as u64,
                            mm == x,
                            y == x as i64,
                    ;
                }
                Some((y, end))
            },
        }
    }
}

impl Wire for u128 {
    type Model = u128;

    open spec fn model(&self) -> u128 {
        *self
    }

    open spec fn wire(m: u128) -> Seq<u8> {
        le_bytes(m as u64) + le_bytes((m >> 64) as u64)
    }

    proof fn lemma_wire_nonempty(m: u128) {
    }

    fn put(&self, out: &mut Vec<u8>) {
        (*self as u64).put(out);
        ((*self >> 64) as u64).put(out);
        assert(final(out)@ =~= old(out)@ + Self::wire(*self));
    }

    fn take(b: &[u8], pos: usize) -> (r: Option<(u128, usize)>) {
        let lo = match take_u64(b, pos) {
            None => {
                assert forall|m: u128| !#[trigger] lies_at(Self::wire(m), b@, pos as int) by {
                    lemma_lies_at_concat(le_bytes(m as u64), le_bytes((m >> 64) as u64), b@, pos as int);
                }
                return None;
            },
            Some((x, _)) => x,
        };
        let hi = match take_u64(b, pos + 8) {
            None => {
                assert forall|m: u128| !#[trigger] lies_at(Self::wire(m), b@, pos as int) by {
                    lemma_lies_at_concat(le_bytes(m as u64), le_bytes((m >> 64) as u64), b@, pos as int);
                }
                return None;
            },
            Some((x, _)) => x,
        };
        let x: u128 = (lo as u128) | ((hi as u128) << 64);
        assert(x as u64 == lo && (x >> 64) as u64 == hi) by (bit_vector)
            requires
                x == (lo as u128) | ((hi as u128) << 64),
        ;
        proof {
            lemma_lies_at_concat(le_bytes(lo), le_bytes(hi), b@, pos as int);
            assert forall|m: u128| #[trigger] lies_at(Self::wire(m), b@, pos as int) implies m == x by {
                lemma_lies_at_concat(le_bytes(m as u64), le_bytes((m >> 64) as u64), b@, pos as int);
                let l = m as u64;
                let h = (m >> 64) as u64;
                assert(l == lo && h == hi);
                assert(m == x) by (bit_vector)
                    requires
                        l == m as u64,
                        h == (m >> 64) as u64,
                        x as u64 == l,
                        (x >> 64) as u64 == h,
                ;
            }
        }
        Some((x, pos + 16))
    }
}

/// Appends the bytes of `s` to `out`.
pub fn put_bytes(out: &mut Vec<u8>, s: &[u8])
    ensures
        final(out)@ == old(out)@ + s@,
{
    let ghost start = out@;
    let mut i: usize = 0;
    while i < s.len()
        invariant
            i <= s@.len(),
            out@ == start + s@.subrange(0, i as int),
        decreases s@.len() - i,
    {
        out.push(s[i]);
        i = i + 1;
        assert(out@ =~= start + s@.subrange(0, i as int));
    }
    assert(s@.subrange(0, s@.len() as int) =~= s@);
}

/// Relies on `String::from_utf8`: it succeeds exactly on valid UTF-8 and then
/// holds the characters that the bytes encode.
#[verifier::external_body]
fn string_from_utf8(bytes: Vec<u8>) -> (r: Option<String>)
    ensures
        match r {
            Some(s) => valid_utf8(bytes@) && s@ == decode_utf8(bytes@),
            None => !valid_utf8(bytes@),
        },
{
    String::from_utf8(bytes).ok()
}

impl Wire for String {
    type Model = Seq<char>;

    open spec fn model(&self) -> Seq<char> {
        self@
    }

    open spec fn wire(m: Seq<char>) -> Seq<u8> {
        le_bytes(encode_utf8(m).len() as u64) + encode_utf8(m)
    }

    proof fn lemma_wire_nonempty(m: Seq<char>) {
    }

    fn put(&self, out: &mut Vec<u8>) {
        let bytes = self.as_str().as_bytes();
        (bytes.len() as u64).put(out);
        put_bytes(out, bytes);
        assert(final(out)@ =~= old(out)@ + Self::wire(self@));
    }

    fn take(b: &[u8], pos: usize) -> (r: Option<(String, usize)>) {
        let n = match take_u64(b, pos) {
            None => {
                assert forall|m: Seq<char>| !#[trigger] lies_at(Self::wire(m), b@, pos as int) by {
                    lemma_lies_at_concat(le_bytes(encode_utf8(m).len() as u64), encode_utf8(m), b@, pos as int);
                }
                return None;
            },
            Some((x, _)) => x,
        };
        let start = pos + 8;
        if n > (b.len() - start) as u64 {
            assert forall|m: Seq<char>| !#[trigger] lies_at(Self::wire(m), b@, pos as int) by {
                lemma_lies_at_concat(le_bytes(encode_utf8(m).len() as u64), encode_utf8(m), b@, pos as int);
                if lies_at(Self::wire(m), b@, pos as int) {
                    assert(encode_utf8(m).len() as u64 == n);
                }
            }
            return None;
        }
        let end = start + n as usize;
        let bytes = slice_to_vec(slice_subrange(b, start, end));
        let ghost bs = bytes@;
        proof {
            assert forall|m: Seq<char>| #[trigger] lies_at(Self::wire(m), b@, pos as int) implies encode_utf8(m)
                == bs by {
                lemma_lies_at_concat(le_bytes(encode_utf8(m).len() as u64), encode_utf8(m), b@, pos as int);
                assert(encode_utf8(m).len() as u64 == n);
            }
        }
        match string_from_utf8(bytes) {
            None => {
                assert forall|m: Seq<char>| !#[trigger] lies_at(Self::wire(m), b@, pos as int) by {
                    if lies_at(Self::wire(m), b@, pos as int) {
                        encode_utf8_valid_utf8(m);
                    }
                }
                None
            },
            Some(s) => {
                proof {
                    decode_utf8_encode_utf8(bs);
                    assert(encode_utf8(s@) == bs);
                    lemma_lies_at_concat(le_bytes(encode_utf8(s@).len() as u64), encode_utf8(s@), b@, pos as int);
                    assert(b@.subrange(start as int, end as int) == bs);
                    assert forall|m: Seq<char>| #[trigger] lies_at(Self::wire(m), b@, pos as int) implies m == s@ by {
                        encode_utf8_decode_utf8(m);
                    }
                }
                Some((s, end))
            },
        }
    }
}

impl<T: Wire> Wire for Option<T> {
    type Model = Option<T::Model>;

    open spec fn model(&self) -> Option<T::Model> {
        match self {
            Some(v) => Some(v.model()),
            None => None,
        }
    }

    open spec fn wire(m: Option<T::Model>) -> Seq<u8> {
        match m {
            Some(v) => seq![1u8] + T::wire(v),
            None => seq![0u8],
        }
    }

    proof fn lemma_wire_nonempty(m: Option<T::Model>) {
    }

    fn put(&self, out: &mut Vec<u8>) {
        match self {
            Some(v) => {
                out.push(1u8);
                v.put(out);
                assert(final(out)@ =~= old(out)@ + Self::wire(self.model()));
            },
            None => {
                out.push(0u8);
                assert(final(out)@ =~= old(out)@ + Self::wire(self.model()));
            },
        }
    }

    fn take(b: &[u8], pos: usize) -> (r: Option<(Option<T>, usize)>) {
        let tag = match <u8 as Wire>::take(b, pos) {
            None => {
                assert forall|m: Option<T::Model>| !#[trigger] lies_at(Self::wire(m), b@, pos as int) by {
                    if lies_at(Self::wire(m), b@, pos as int) {
                        lemma_option_tag::<T>(m, b@, pos as int);
                    }
                }
                return None;
            },
            Some((t, _)) => t,
        };
        if tag == 0 {
            proof {
                assert(lies_at(<u8 as Wire>::wire(0u8), b@, pos as int));
                assert forall|m: Option<T::Model>| #[trigger] lies_at(Self::wire(m), b@, pos as int) implies m
                    == None::<T::Model> by {
                    lemma_option_tag::<T>(m, b@, pos as int);
                }
            }
            Some((None, pos + 1))
        } else if tag == 1 {
            match T::take(b, pos + 1) {
                None => {
                    assert forall|m: Option<T::Model>| !#[trigger] lies_at(Self::wire(m), b@, pos as int) by {
                        if lies_at(Self::wire(m), b@, pos as int) {
                            lemma_option_tag::<T>(m, b@, pos as int);
                        }
                    }
                    None
                },
                Some((v, end)) => {
                    proof {
                        lemma_lies_at_concat(seq![1u8], T::wire(v.model()), b@, pos as int);
                        assert(b@.subrange(pos as int, pos + 1) =~= seq![1u8]);
                        assert forall|m: Option<T::Model>| #[trigger] lies_at(Self::wire(m), b@, pos as int) implies m
                            == Some(v.model()) by {
                            lemma_option_tag::<T>(m, b@, pos as int);
                        }
                    }
                    Some((Some(v), end))
                },
            }
        } else {
            assert forall|m: Option<T::Model>| !#[trigger] lies_at(Self::wire(m), b@, pos as int) by {
                if lies_at(Self::wire(m), b@, pos as int) {
                    lemma_option_tag::<T>(m, b@, pos as int);
                }
            }
            None
        }
    }
}

/// Where an encoded option stands, its tag byte stands first and the
/// encoded content, if any, after it.
proof fn lemma_option_tag<T: Wire>(m: Option<T::Model>, b: Seq<u8>, pos: int)
    requires
        lies_at(<Option<T> as Wire>::wire(m), b, pos),
    ensures
        lies_at(<u8 as Wire>::wire(if m is Some { 1u8 } else { 0u8 }), b, pos),
        m matches Some(v) ==> lies_at(T::wire(v), b, pos + 1),
{
    match m {
        Some(v) => {
            lemma_lies_at_concat(seq![1u8], T::wire(v), b, pos);
        },
        None => {},
    }
}

/// The encodings of the items of `s`, one after another.
pub open spec fn items<T: Wire>(s: Seq<T::Model>) -> Seq<u8>
    decreases s.len(),
{
    if s.len() == 0 {
        Seq::empty()
    } else {
        items::<T>(s.drop_last()) + T::wire(s.last())
    }
}

proof fn lemma_items_len<T: Wire>(s: Seq<T::Model>)
    ensures
        items::<T>(s).len() >= s.len(),
    decreases s.len(),
{
    if s.len() > 0 {
        lemma_items_len::<T>(s.drop_last());
        T::lemma_wire_nonempty(s.last());
    }
}

proof fn lemma_items_prefix<T: Wire>(s: Seq<T::Model>, k: int, b: Seq<u8>, pos: int)
    requires
        0 <= k <= s.len(),
        lies_at(items::<T>(s), b, pos),
    ensures
        lies_at(items::<T>(s.take(k)), b, pos),
    decreases s.len() - k,
{
    if k < s.len() {
        lemma_lies_at_concat(items::<T>(s.drop_last()), T::wire(s.last()), b, pos);
        lemma_items_prefix::<T>(s.drop_last(), k, b, pos);
        assert(s.drop_last().take(k) =~= s.take(k));
    } else {
        assert(s.take(k) =~= s);
    }
}

impl<T: Wire> Wire for Vec<T> {
    type Model = Seq<T::Model>;

    open spec fn model(&self) -> Seq<T::Model> {
        self@.map_values(|t: T| t.model())
    }

    open spec fn wire(m: Seq<T::Model>) -> Seq<u8> {
        le_bytes(m.len() as u64) + items::<T>(m)
    }

    proof fn lemma_wire_nonempty(m: Seq<T::Model>) {
    }

    fn put(&self, out: &mut Vec<u8>) {
        let ghost start = out@;
        (self.len() as u64).put(out);
        let mut i: usize = 0;
        while i < self.len()
            invariant
                i <= self@.len(),
                out@ == start + le_bytes(self@.len() as u64) + items::<T>(
                    self.model().take(i as int),
                ),
            decreases self@.len() - i,
        {
            self[i].put(out);
            proof {
                let s = self.model().take(i + 1);
                assert(s.drop_last() =~= self.model().take(i as int));
                assert(s.last() == self@[i as int].model());
            }
            i = i + 1;
        }
        assert(self.model().take(self@.len() as int) =~= self.model());
    }

    fn take(b: &[u8], pos: usize) -> (r: Option<(Vec<T>, usize)>) {
        let n = match take_u64(b, pos) {
            None => {
                assert forall|m: Seq<T::Model>| !#[trigger] lies_at(Self::wire(m), b@, pos as int) by {
                    lemma_lies_at_concat(le_bytes(m.len() as u64), items::<T>(m), b@, pos as int);
                }
                return None;
            },
            Some((x, _)) => x,
        };
        let first = pos + 8;
        let blen = b.len();
        proof {
            assert forall|m: Seq<T::Model>| #[trigger] lies_at(Self::wire(m), b@, pos as int) implies m.len() == n
                && lies_at(items::<T>(m), b@, first as int) by {
                lemma_lies_at_concat(le_bytes(m.len() as u64), items::<T>(m), b@, pos as int);
                lemma_items_len::<T>(m);
                assert(m.len() <= blen);
            }
        }
        let mut v: Vec<T> = Vec::new();
        let mut p: usize = first;
        let mut i: u64 = 0;
        proof {
            assert(v.model() =~= Seq::<T::Model>::empty());
            assert(b@.subrange(first as int, first as int) =~= Seq::<u8>::empty());
            assert forall|ms: Seq<T::Model>| #[trigger]
                lies_at(items::<T>(ms), b@, first as int) && ms.len() == 0 implies ms == v.model() by {
                assert(ms =~= v.model());
            }
        }
        while i < n
            invariant
                forall|m: Seq<T::Model>| #[trigger]
                    lies_at(Self::wire(m), b@, pos as int) ==> m.len() == n && lies_at(
                        items::<T>(m),
                        b@,
                        first as int,
                    ),
                first <= b@.len(),
                i <= n,
                v@.len() == i,
                p == first + items::<T>(v.model()).len(),
                lies_at(items::<T>(v.model()), b@, first as int),
                forall|ms: Seq<T::Model>| #[trigger]
                    lies_at(items::<T>(ms), b@, first as int) && ms.len() == i ==> ms == v.model(),
            decreases n - i,
        {
            let ghost before = v.model();
            match T::take(b, p) {
                None => {
                    proof {
                        assert forall|m: Seq<T::Model>| !#[trigger] lies_at(Self::wire(m), b@, pos as int) by {
                            if lies_at(Self::wire(m), b@, pos as int) {
                                lemma_items_prefix::<T>(m, i + 1, b@, first as int);
                                let t = m.take(i + 1);
                                assert(t.drop_last() =~= m.take(i as int));
                                lemma_lies_at_concat(items::<T>(t.drop_last()), T::wire(t.last()), b@, first as int);
                                assert(m.take(i as int) == before);
                            }
                        }
                    }
                    return None;
                },
                Some((x, end)) => {
                    v.push(x);
                    proof {
                        let after = v.model();
                        assert(after.drop_last() =~= before);
                        assert(after.last() == x.model());
                        lemma_lies_at_concat(items::<T>(before), T::wire(x.model()), b@, first as int);
                        assert forall|ms: Seq<T::Model>| #[trigger]
                            lies_at(items::<T>(ms), b@, first as int) && ms.len() == i + 1 implies ms == after by {
                            lemma_lies_at_concat(items::<T>(ms.drop_last()), T::wire(ms.last()), b@, first as int);
                            assert(ms.drop_last() == before);
                            assert(lies_at(T::wire(ms.last()), b@, p as int));
                            assert(ms.last() == x.model());
                            assert(ms =~= ms.drop_last().push(ms.last()));
                            assert(after =~= before.push(x.model()));
                        }
                    }
                    p = end;
                    i = i + 1;
                },
            }
        }
        proof {
            lemma_lies_at_concat(le_bytes(n), items::<T>(v.model()), b@, pos as int);
            assert(v.model().len() as u64 == n);
        }
        Some((v, p))
    }
}

impl<A: Wire, B: Wire> Wire for (A, B) {
    type Model = (A::Model, B::Model);

    open spec fn model(&self) -> (A::Model, B::Model) {
        (self.0.model(), self.1.model())
    }

    open spec fn wire(m: (A::Model, B::Model)) -> Seq<u8> {
        A::wire(m.0) + B::wire(m.1)
    }

    proof fn lemma_wire_nonempty(m: (A::Model, B::Model)) {
        A::lemma_wire_nonempty(m.0);
    }

    fn put(&self, out: &mut Vec<u8>) {
        self.0.put(out);
        self.1.put(out);
        assert(final(out)@ =~= old(out)@ + Self::wire(self.model()));
    }

    fn take(b: &[u8], pos: usize) -> (r: Option<((A, B), usize)>) {
        let (a, mid) = match A::take(b, pos) {
            None => {
                assert forall|m: (A::Model, B::Model)| !#[trigger] lies_at(Self::wire(m), b@, pos as int) by {
                    lemma_lies_at_concat(A::wire(m.0), B::wire(m.1), b@, pos as int);
                }
                return None;
            },
            Some(x) => x,
        };
        match B::take(b, mid) {
            None => {
                assert forall|m: (A::Model, B::Model)| !#[trigger] lies_at(Self::wire(m), b@, pos as int) by {
                    lemma_lies_at_concat(A::wire(m.0), B::wire(m.1), b@, pos as int);
                }
                None
            },
            Some((c, end)) => {
                proof {
                    lemma_lies_at_concat(A::wire(a.model()), B::wire(c.model()), b@, pos as int);
                    assert forall|m: (A::Model, B::Model)| #[trigger] lies_at(Self::wire(m), b@, pos as int) implies m
                        == (a.model(), c.model()) by {
                        lemma_lies_at_concat(A::wire(m.0), B::wire(m.1), b@, pos as int);
                    }
                }
                Some(((a, c), end))
            },
        }
    }
}

/// The model of a byte vector is its view.
pub proof fn lemma_bytes_model(v: Vec<u8>)
    ensures
        v.model() == v@,
{
    assert(v.model() =~= v@);
}

/// Where a one-byte tag and then `rest` stand at `pos`, the tag is the byte
/// at `pos` and `rest` stands right after it.
pub proof fn lemma_tag_at(tag: u8, rest: Seq<u8>, b: Seq<u8>, pos: int)
    requires
        lies_at(seq![tag] + rest, b, pos),
    ensures
        pos < b.len(),
        b[pos] == tag,
        lies_at(rest, b, pos + 1),
{
    lemma_lies_at_concat(seq![tag], rest, b, pos);
    assert(b.subrange(pos, pos + 1)[0] == b[pos]);
}

/// Reads the tag byte at `pos`.
pub fn take_tag(b: &[u8], pos: usize) -> (r: Option<u8>)
    ensures
        r == (if pos < b@.len() { Some(b@[pos as int]) } else { None::<u8> }),
        b@.len() <= usize::MAX,
{
    if pos < b.len() {
        Some(b[pos])
    } else {
        None
    }
}

/// Bytes that are not the encoding of any value of the expected type.
#[derive(Clone, Copy, Debug, PartialEq, Eq, Structural)]
pub struct DecodeError;

/// What decoding a whole buffer owes: the one value whose encoding is
/// exactly `b`, or an error where there is none.
pub open spec fn decodes<T: Wire, E>(b: Seq<u8>, r: Result<T, E>) -> bool {
    match r {
        Ok(v) => T::wire(v.model()) == b && forall|m: T::Model| #[trigger] T::wire(m) == b ==> m == v.model(),
        Err(_) => forall|m: T::Model| #[trigger] T::wire(m) != b,
    }
}

/// Encodes `v` into a fresh buffer.
pub fn encode_value<T: Wire>(v: &T) -> (r: Vec<u8>)
    ensures
        r@ == T::wire(v.model()),
{
    let mut out: Vec<u8> = Vec::new();
    v.put(&mut out);
    assert(out@ =~= T::wire(v.model()));
    out
}

/// Decodes a buffer that holds exactly one encoded value.
pub fn decode_value<T: Wire>(b: &[u8]) -> (r: Option<T>)
    ensures
        match r {
            Some(v) => T::wire(v.model()) == b@ && forall|m: T::Model| #[trigger] T::wire(m) == b@ ==> m == v.model(),
            None => forall|m: T::Model| #[trigger] T::wire(m) != b@,
        },
{
    match T::take(b, 0) {
        None => {
            assert forall|m: T::Model| #[trigger] T::wire(m) != b@ by {
                if T::wire(m) == b@ {
                    assert(b@.subrange(0, b@.len() as int) =~= b@);
                    assert(lies_at(T::wire(m), b@, 0));
                }
            }
            None
        },
        Some((v, end)) => {
            if end == b.len() {
                assert(b@.subrange(0, b@.len() as int) =~= b@);
                assert forall|m: T::Model| #[trigger] T::wire(m) == b@ implies m == v.model() by {
                    assert(lies_at(T::wire(m), b@, 0));
                }
                Some(v)
            } else {
                assert forall|m: T::Model| #[trigger] T::wire(m) != b@ by {
                    if T::wire(m) == b@ {
                        assert(b@.subrange(0, b@.len() as int) =~= b@);
                        assert(lies_at(T::wire(m), b@, 0));
                    }
                }
                None
            }
        },
    }
}

} // verus!
