//! Integers and names as they are read from a source of bytes.

use crate::io::read::Read;
use crate::io::{Error, Result};
use vstd::prelude::*;

verus! {

/// The number that `bytes` spell, the most significant byte first.
pub open spec fn be_value(bytes: Seq<u8>) -> nat
    decreases bytes.len(),
{
    if bytes.len() == 0 {
        0
    } else {
        be_value(bytes.drop_last()) * 256 + bytes.last() as nat
    }
}

/// The number that `bytes` spell, the least significant byte first.
pub open spec fn le_value(bytes: Seq<u8>) -> nat
    decreases bytes.len(),
{
    if bytes.len() == 0 {
        0
    } else {
        bytes[0] as nat + 256 * le_value(bytes.skip(1))
    }
}

/// The number of values that `n` bytes can spell.
pub open spec fn values_of(n: nat) -> nat
    decreases n,
{
    if n == 0 {
        1
    } else {
        256 * values_of((n - 1) as nat)
    }
}

/// Bytes spell a number below the number of values that so many bytes can spell,
/// whichever byte comes first.
pub proof fn lemma_value_fits(bytes: Seq<u8>)
    ensures
        be_value(bytes) < values_of(bytes.len()),
        le_value(bytes) < values_of(bytes.len()),
    decreases bytes.len(),
{
    if bytes.len() > 0 {
        lemma_value_fits(bytes.drop_last());
        lemma_value_fits(bytes.skip(1));
    }
}

/// Eight bytes can spell as many values as a `u64` has.
pub proof fn lemma_values_of_widths()
    ensures
        values_of(1) == 0x100,
        values_of(2) == 0x1_0000,
        values_of(4) == 0x1_0000_0000,
        values_of(8) == 0x1_0000_0000_0000_0000,
{
    reveal_with_fuel(values_of, 9);
}

/// More bytes can spell more values.
pub proof fn lemma_values_of_grows(m: nat, n: nat)
    requires
        m <= n,
    ensures
        values_of(m) <= values_of(n),
        values_of(m) >= 1,
    decreases n,
{
    if m < n {
        lemma_values_of_grows(m, (n - 1) as nat);
    } else if m > 0 {
        lemma_values_of_grows((m - 1) as nat, (m - 1) as nat);
    }
}

/// The number that at most eight bytes spell, the most significant byte first.
pub fn be_value_of(bytes: &[u8]) -> (value: u64)
    requires
        bytes@.len() <= 8,
    ensures
        value == be_value(bytes@),
{
    let n: usize = bytes.len();
    let mut value: u64 = 0;
    let mut i: usize = 0;
    while i < n
        invariant
            i <= n <= 8,
            n == bytes@.len(),
            value == be_value(bytes@.take(i as int)),
        decreases n - i,
    {
        proof {
            let seen = bytes@.take(i as int);
            let next = bytes@.take(i + 1);
            assert(next.drop_last() =~= seen);
            lemma_value_fits(next);
            lemma_values_of_grows(next.len(), 8);
            lemma_values_of_widths();
        }
        value = value * 256 + bytes[i] as u64;
        i += 1;
    }
    assert(bytes@.take(n as int) =~= bytes@);
    value
}

/// The number that at most eight bytes spell, the least significant byte first.
pub fn le_value_of(bytes: &[u8]) -> (value: u64)
    requires
        bytes@.len() <= 8,
    ensures
        value == le_value(bytes@),
{
    let n: usize = bytes.len();
    let mut value: u64 = 0;
    let mut i: usize = n;
    while i > 0
        invariant
            i <= n <= 8,
            n == bytes@.len(),
            value == le_value(bytes@.skip(i as int)),
        decreases i,
    {
        proof {
            let seen = bytes@.skip(i as int);
            let next = bytes@.skip(i - 1);
            assert(next.skip(1) =~= seen);
            lemma_value_fits(next);
            lemma_values_of_grows(next.len(), 8);
            lemma_values_of_widths();
        }
        i -= 1;
        value = value * 256 + bytes[i] as u64;
    }
    assert(bytes@.skip(0) =~= bytes@);
    value
}

/// Whether `bytes` are the next `count` bytes of `before`, and `after` is what is left
/// behind them.
pub open spec fn took(before: Seq<u8>, after: Seq<u8>, bytes: Seq<u8>, count: nat) -> bool {
    &&& count <= before.len()
    &&& bytes == before.take(count as int)
    &&& after == before.skip(count as int)
}

/// Whether `result` is the outcome that a source which never fails owes to a reader of
/// `wanted` bytes when it has the bytes `before` left: success where these suffice, and
/// [`Error::PrematureEndOfInput`] where they do not, which leaves the source at its end.
pub open spec fn owed<V>(result: Result<V>, before: Seq<u8>, after: Seq<u8>, wanted: nat) -> bool {
    match result {
        Ok(_) => wanted <= before.len(),
        Err(e) => e == Error::PrematureEndOfInput && before.len() < wanted && after
            == Seq::<u8>::empty(),
    }
}

/// Reads exactly `N` bytes from the source.
pub fn read_bytes<R: Read<u8>, const N: usize>(source: &mut R) -> (result: Result<[u8; N]>)
    requires
        forall|len: nat| 1 <= len <= N ==> old(source).can_read(len),
    ensures
        forall|len: nat| old(source).can_read(len) ==> final(source).can_read(len),
        old(source).never_fails() ==> final(source).never_fails() && owed(
            result,
            old(source).remaining(),
            final(source).remaining(),
            N as nat,
        ),
        result matches Ok(bytes) ==> took(
            old(source).remaining(),
            final(source).remaining(),
            bytes@,
            N as nat,
        ),
{
    let mut buf = [0_u8; N];
    match source.read_exact(&mut buf) {
        Ok(()) => Ok(buf),
        Err(e) => Err(e),
    }
}

/// Reads a single byte from the source.
pub fn read_u8<R: Read<u8>>(source: &mut R) -> (result: Result<u8>)
    requires
        old(source).can_read(1),
    ensures
        forall|len: nat| old(source).can_read(len) ==> final(source).can_read(len),
        old(source).never_fails() ==> final(source).never_fails() && owed(
            result,
            old(source).remaining(),
            final(source).remaining(),
            1,
        ),
        result matches Ok(value) ==> took(
            old(source).remaining(),
            final(source).remaining(),
            seq![value],
            1,
        ),
{
    match read_bytes::<R, 1>(source) {
        Ok(bytes) => {
            assert(bytes@ =~= seq![bytes[0]]);
            Ok(bytes[0])
        },
        Err(e) => Err(e),
    }
}

/// Reads a single 16-bit integer from the source. Uses big endian.
pub fn read_be_u16<R: Read<u8>>(source: &mut R) -> (result: Result<u16>)
    requires
        forall|len: nat| 1 <= len <= 2 ==> old(source).can_read(len),
    ensures
        forall|len: nat| old(source).can_read(len) ==> final(source).can_read(len),
        old(source).never_fails() ==> final(source).never_fails() && owed(
            result,
            old(source).remaining(),
            final(source).remaining(),
            2,
        ),
        result matches Ok(value) ==> took(
            old(source).remaining(),
            final(source).remaining(),
            old(source).remaining().take(2),
            2,
        ) && value == be_value(old(source).remaining().take(2)),
{
    match read_bytes::<R, 2>(source) {
        Ok(bytes) => {
            proof {
                lemma_value_fits(bytes@);
                lemma_values_of_widths();
            }
            Ok(be_value_of(bytes.as_slice()) as u16)
        },
        Err(e) => Err(e),
    }
}

/// Reads a single 32-bit integer from the source. Uses big endian.
pub fn read_be_u32<R: Read<u8>>(source: &mut R) -> (result: Result<u32>)
    requires
        forall|len: nat| 1 <= len <= 4 ==> old(source).can_read(len),
    ensures
        forall|len: nat| old(source).can_read(len) ==> final(source).can_read(len),
        old(source).never_fails() ==> final(source).never_fails() && owed(
            result,
            old(source).remaining(),
            final(source).remaining(),
            4,
        ),
        result matches Ok(value) ==> took(
            old(source).remaining(),
            final(source).remaining(),
            old(source).remaining().take(4),
            4,
        ) && value == be_value(old(source).remaining().take(4)),
{
    match read_bytes::<R, 4>(source) {
        Ok(bytes) => {
            proof {
                lemma_value_fits(bytes@);
                lemma_values_of_widths();
            }
            Ok(be_value_of(bytes.as_slice()) as u32)
        },
        Err(e) => Err(e),
    }
}

/// Reads a single 64-bit integer from the source. Uses big endian.
pub fn read_be_u64<R: Read<u8>>(source: &mut R) -> (result: Result<u64>)
    requires
        forall|len: nat| 1 <= len <= 8 ==> old(source).can_read(len),
    ensures
        forall|len: nat| old(source).can_read(len) ==> final(source).can_read(len),
        old(source).never_fails() ==> final(source).never_fails() && owed(
            result,
            old(source).remaining(),
            final(source).remaining(),
            8,
        ),
        result matches Ok(value) ==> took(
            old(source).remaining(),
            final(source).remaining(),
            old(source).remaining().take(8),
            8,
        ) && value == be_value(old(source).remaining().take(8)),
{
    match read_bytes::<R, 8>(source) {
        Ok(bytes) => Ok(be_value_of(bytes.as_slice())),
        Err(e) => Err(e),
    }
}

/// Reads a single 16-bit integer from the source. Uses little endian.
pub fn read_le_u16<R: Read<u8>>(source: &mut R) -> (result: Result<u16>)
    requires
        forall|len: nat| 1 <= len <= 2 ==> old(source).can_read(len),
    ensures
        forall|len: nat| old(source).can_read(len) ==> final(source).can_read(len),
        old(source).never_fails() ==> final(source).never_fails() && owed(
            result,
            old(source).remaining(),
            final(source).remaining(),
            2,
        ),
        result matches Ok(value) ==> took(
            old(source).remaining(),
            final(source).remaining(),
            old(source).remaining().take(2),
            2,
        ) && value == le_value(old(source).remaining().take(2)),
{
    match read_bytes::<R, 2>(source) {
        Ok(bytes) => {
            proof {
                lemma_value_fits(bytes@);
                lemma_values_of_widths();
            }
            Ok(le_value_of(bytes.as_slice()) as u16)
        },
        Err(e) => Err(e),
    }
}

/// Reads a single 32-bit integer from the source. Uses little endian.
pub fn read_le_u32<R: Read<u8>>(source: &mut R) -> (result: Result<u32>)
    requires
        forall|len: nat| 1 <= len <= 4 ==> old(source).can_read(len),
    ensures
        forall|len: nat| old(source).can_read(len) ==> final(source).can_read(len),
        old(source).never_fails() ==> final(source).never_fails() && owed(
            result,
            old(source).remaining(),
            final(source).remaining(),
            4,
        ),
        result matches Ok(value) ==> took(
            old(source).remaining(),
            final(source).remaining(),
            old(source).remaining().take(4),
            4,
        ) && value == le_value(old(source).remaining().take(4)),
{
    match read_bytes::<R, 4>(source) {
        Ok(bytes) => {
            proof {
                lemma_value_fits(bytes@);
                lemma_values_of_widths();
            }
            Ok(le_value_of(bytes.as_slice()) as u32)
        },
        Err(e) => Err(e),
    }
}

/// Reads a single 64-bit integer from the source. Uses little endian.
pub fn read_le_u64<R: Read<u8>>(source: &mut R) -> (result: Result<u64>)
    requires
        forall|len: nat| 1 <= len <= 8 ==> old(source).can_read(len),
    ensures
        forall|len: nat| old(source).can_read(len) ==> final(source).can_read(len),
        old(source).never_fails() ==> final(source).never_fails() && owed(
            result,
            old(source).remaining(),
            final(source).remaining(),
            8,
        ),
        result matches Ok(value) ==> took(
            old(source).remaining(),
            final(source).remaining(),
            old(source).remaining().take(8),
            8,
        ) && value == le_value(old(source).remaining().take(8)),
{
    match read_bytes::<R, 8>(source) {
        Ok(bytes) => Ok(le_value_of(bytes.as_slice())),
        Err(e) => Err(e),
    }
}

/// The bytes in front of the first zero byte: all of them where none is zero.
pub open spec fn terminated(bytes: Seq<u8>) -> Seq<u8>
    decreases bytes.len(),
{
    if bytes.len() == 0 || bytes[0] == 0 {
        Seq::empty()
    } else {
        seq![bytes[0]] + terminated(bytes.skip(1))
    }
}

/// The bytes of `bytes` in front of its first zero byte.
pub fn until_zero(bytes: &[u8]) -> (front: &[u8])
    ensures
        front@ == terminated(bytes@),
{
    let n: usize = bytes.len();
    let mut pos: usize = 0;
    assert(bytes@.take(0) + terminated(bytes@.skip(0)) =~= terminated(bytes@)) by {
        assert(bytes@.skip(0) =~= bytes@);
    }
    while pos < n && bytes[pos] != 0
        invariant
            pos <= n,
            n == bytes@.len(),
            terminated(bytes@) == bytes@.take(pos as int) + terminated(bytes@.skip(pos as int)),
        decreases n - pos,
    {
        proof {
            let rest = bytes@.skip(pos as int);
            assert(rest.skip(1) =~= bytes@.skip(pos + 1));
            assert(bytes@.take(pos + 1) =~= bytes@.take(pos as int) + seq![rest[0]]);
            assert(bytes@.take(pos as int) + (seq![rest[0]] + terminated(rest.skip(1))) =~= (
            bytes@.take(pos as int) + seq![rest[0]]) + terminated(rest.skip(1)));
        }
        pos += 1;
    }
    let front = vstd::slice::slice_subrange(bytes, 0, pos);
    assert(front@ =~= terminated(bytes@));
    front
}

/// The text that `String::from_utf8_lossy` of std makes of bytes: the text that they
/// encode as UTF-8, with a replacement character for what is not valid.
pub uninterp spec fn utf8_lossy(bytes: Seq<u8>) -> Seq<char>;

/// `String::from_utf8_lossy` of std, as an owned string: the text of `bytes`.
#[verifier::external_body]
fn from_utf8_lossy(bytes: &[u8]) -> (text: String)
    ensures
        text@ == utf8_lossy(bytes@),
{
    String::from_utf8_lossy(bytes).into_owned()
}

/// Reads a null-terminated string from the next `N` bytes of the source.
/// If a string is not null-terminated within `N` bytes,
/// this gives a string with all `N` bytes.
/// The string is created with [`String::from_utf8_lossy`].
pub fn read_null_terminated_string<R: Read<u8>, const N: usize>(source: &mut R) -> (result: Result<
    String,
>)
    requires
        forall|len: nat| 1 <= len <= N ==> old(source).can_read(len),
    ensures
        forall|len: nat| old(source).can_read(len) ==> final(source).can_read(len),
        old(source).never_fails() ==> final(source).never_fails() && owed(
            result,
            old(source).remaining(),
            final(source).remaining(),
            N as nat,
        ),
        result matches Ok(text) ==> took(
            old(source).remaining(),
            final(source).remaining(),
            old(source).remaining().take(N as int),
            N as nat,
        ) && text@ == utf8_lossy(terminated(old(source).remaining().take(N as int))),
{
    match read_bytes::<R, N>(source) {
        Ok(data) => Ok(from_utf8_lossy(until_zero(data.as_slice()))),
        Err(e) => Err(e),
    }
}

} // verus!
