//! The database's binary COPY format, written by hand. Everything is big-endian:
//! a header of 19 bytes, then for each row a 16-bit field count and for each
//! field a 32-bit byte length and its payload, then a 16-bit -1.

use crate::types::{lemma_valid_range, Timestamp};
use crate::warm::StoredReading;
use vstd::arithmetic::power::pow;
use vstd::prelude::*;

verus! {

/// The command that a binary COPY of readings starts with.
pub const COPY_STATEMENT: &'static str =
    "COPY sensor_readings (time, sensor_id, value, quality) FROM STDIN WITH (FORMAT binary)";

/// The microseconds between 1970 and the database's epoch, 2000-01-01.
pub const PG_EPOCH_MICROS: i64 = 946_684_800_000_000;

/// The last `width` bytes of a number, the most significant first.
pub open spec fn big_endian(value: int, width: nat) -> Seq<u8>
    decreases width,
{
    if width == 0 {
        seq![]
    } else {
        big_endian(value / 256, (width - 1) as nat).push((value % 256) as u8)
    }
}

/// The number that bytes stand for, the most significant first.
pub open spec fn number_of(bytes: Seq<u8>) -> int
    decreases bytes.len(),
{
    if bytes.len() == 0 {
        0
    } else {
        number_of(bytes.drop_last()) * 256 + bytes.last()
    }
}

/// The signed number that eight bytes stand for.
pub open spec fn signed_of(bytes: Seq<u8>) -> int {
    let n = number_of(bytes);
    if n < 0x8000_0000_0000_0000 {
        n
    } else {
        n - 0x1_0000_0000_0000_0000
    }
}

/// Microseconds since the database's epoch.
pub open spec fn pg_micros(ts: Timestamp) -> int {
    ts.epoch_micros() - PG_EPOCH_MICROS
}

pub open spec fn header_bytes() -> Seq<u8> {
    seq![
        0x50u8,
        0x47u8,
        0x43u8,
        0x4Fu8,
        0x50u8,
        0x59u8,
        0x0Au8,
        0xFFu8,
        0x0Du8,
        0x0Au8,
        0x00u8,
    ] + big_endian(0, 4) + big_endian(0, 4)
}

/// A field: its length and its payload.
pub open spec fn field_bytes(payload: Seq<u8>) -> Seq<u8> {
    big_endian(payload.len() as int, 4) + payload
}

pub open spec fn row_bytes(row: StoredReading) -> Seq<u8> {
    big_endian(4, 2) + field_bytes(big_endian(pg_micros(row.ts), 8)) + field_bytes(
        big_endian(row.sensor_id as int, 16),
    ) + field_bytes(big_endian(row.value.bits as int, 4)) + field_bytes(
        big_endian(row.quality.number(), 2),
    )
}

/// All rows, one after the other.
pub open spec fn rows_bytes(rows: Seq<StoredReading>) -> Seq<u8>
    decreases rows.len(),
{
    if rows.len() == 0 {
        seq![]
    } else {
        rows_bytes(rows.drop_last()) + row_bytes(rows.last())
    }
}

/// A whole COPY of `rows`.
pub open spec fn copy_bytes(rows: Seq<StoredReading>) -> Seq<u8> {
    header_bytes() + rows_bytes(rows) + big_endian(-1, 2)
}

/// Calls `uuid::Uuid::from_u128` and, on the identifier that it gives,
/// `as_bytes`. Claimed: the bytes are the sixteen of the number, the most
/// significant first.
#[verifier::external_body]
fn uuid_bytes(id: u128) -> (r: [u8; 16])
    ensures
        r@ == big_endian(id as int, 16),
{
    *uuid::Uuid::from_u128(id).as_bytes()
}

/// Appends the last `width` bytes of a number.
fn put(out: &mut Vec<u8>, value: u64, width: u32)
    requires
        width <= 8,
    ensures
        final(out)@ == old(out)@ + big_endian(value as int, width as nat),
    decreases width,
{
    if width > 0 {
        put(out, value / 256, width - 1);
        out.push((value % 256) as u8);
    }
    assert(out@ =~= old(out)@ + big_endian(value as int, width as nat));
}

/// Whole multiples of 256^width leave the last `width` bytes alone.
proof fn lemma_same_bytes(value: int, width: nat, times: int)
    ensures
        big_endian(value + times * pow(256, width), width) == big_endian(value, width),
    decreases width,
{
    reveal(pow);
    if width > 0 {
        let less = (width - 1) as nat;
        let step = times * pow(256, less);
        assert(times * pow(256, width) == 256 * step) by (nonlinear_arith)
            requires
                pow(256, width) == 256 * pow(256, less),
                step == times * pow(256, less),
        ;
        lemma_same_bytes(value / 256, less, times);
        assert((value + 256 * step) / 256 == value / 256 + step);
        assert((value + 256 * step) % 256 == value % 256);
    }
}

proof fn lemma_powers()
    ensures
        pow(256, 2) == 0x1_0000,
        pow(256, 4) == 0x1_0000_0000,
        pow(256, 8) == 0x1_0000_0000_0000_0000,
        pow(256, 16) == 0x1_0000_0000_0000_0000_0000_0000_0000_0000,
{
    reveal(pow);
    reveal_with_fuel(pow, 17);
}

/// Appends the eight bytes of a signed number.
fn put_signed(out: &mut Vec<u8>, value: i64)
    ensures
        final(out)@ == old(out)@ + big_endian(value as int, 8),
{
    let pattern: u64 = if value < 0 {
        (value as i128 + 0x1_0000_0000_0000_0000) as u64
    } else {
        value as u64
    };
    proof {
        lemma_powers();
        lemma_same_bytes(value as int, 8, 1);
    }
    put(out, pattern, 8);
}

fn put_row(out: &mut Vec<u8>, row: &StoredReading)
    ensures
        final(out)@ == old(out)@ + row_bytes(*row),
{
    proof {
        lemma_width(pg_micros(row.ts), 8);
        lemma_width(row.sensor_id as int, 16);
        lemma_width(row.value.bits as int, 4);
        lemma_width(row.quality.number(), 2);
    }
    let micros: i64 = row.ts.timestamp_micros() - PG_EPOCH_MICROS;
    let id: [u8; 16] = uuid_bytes(row.sensor_id);
    put(out, 4, 2);
    put(out, 8, 4);
    put_signed(out, micros);
    put(out, 16, 4);
    out.extend_from_slice(&id);
    put(out, 4, 4);
    put(out, row.value.bits as u64, 4);
    put(out, 2, 4);
    put(out, row.quality.code() as u64, 2);
    assert(out@ =~= old(out)@ + row_bytes(*row));
}

/// The bytes of a COPY of `rows`.
pub fn encode_binary(rows: &[StoredReading]) -> (r: Vec<u8>)
    ensures
        r@ == copy_bytes(rows@),
{
    let mut out: Vec<u8> = Vec::new();
    let magic: [u8; 11] = [0x50, 0x47, 0x43, 0x4F, 0x50, 0x59, 0x0A, 0xFF, 0x0D, 0x0A, 0x00];
    out.extend_from_slice(&magic);
    put(&mut out, 0, 4);
    put(&mut out, 0, 4);
    assert(out@ =~= header_bytes());
    let mut i: usize = 0;
    while i < rows.len()
        invariant
            i <= rows@.len(),
            out@ == header_bytes() + rows_bytes(rows@.take(i as int)),
        decreases rows@.len() - i,
    {
        put_row(&mut out, &rows[i]);
        i = i + 1;
        proof {
            assert(rows@.take(i as int).drop_last() =~= rows@.take(i - 1));
            assert(out@ =~= header_bytes() + rows_bytes(rows@.take(i as int)));
        }
    }
    proof {
        lemma_powers();
        lemma_same_bytes(-1, 2, 1);
        assert(rows@.take(i as int) =~= rows@);
    }
    put(&mut out, 0xFFFF, 2);
    out
}

proof fn lemma_width(value: int, width: nat)
    ensures
        big_endian(value, width).len() == width,
    decreases width,
{
    if width > 0 {
        lemma_width(value / 256, (width - 1) as nat);
    }
}

/// A number that fits is read back from its bytes.
pub proof fn law_bytes_read_back(value: int, width: nat)
    requires
        0 <= value < pow(256, width),
    ensures
        number_of(big_endian(value, width)) == value,
        big_endian(value, width).len() == width,
    decreases width,
{
    reveal(pow);
    lemma_width(value, width);
    if width > 0 {
        let less = (width - 1) as nat;
        assert(value / 256 < pow(256, less)) by (nonlinear_arith)
            requires
                value < pow(256, width),
                pow(256, width) == 256 * pow(256, less),
        ;
        law_bytes_read_back(value / 256, less);
        let bytes = big_endian(value, width);
        assert(bytes.drop_last() =~= big_endian(value / 256, less));
    }
}

/// A signed 64-bit number is read back from its eight bytes.
pub proof fn law_signed_bytes_read_back(value: int)
    requires
        -0x8000_0000_0000_0000 <= value < 0x8000_0000_0000_0000,
    ensures
        signed_of(big_endian(value, 8)) == value,
{
    lemma_powers();
    if value < 0 {
        lemma_same_bytes(value, 8, 1);
        law_bytes_read_back(value + 0x1_0000_0000_0000_0000, 8);
    } else {
        law_bytes_read_back(value, 8);
    }
}

/// Every row takes 48 bytes, and its fields are read back from fixed places: the
/// instant to the microsecond, the sensor, the bits of the value and the quality.
pub proof fn law_row_reads_back(row: StoredReading)
    requires
        row.ts.valid(),
    ensures
        row_bytes(row).len() == 48,
        number_of(row_bytes(row).subrange(0, 2)) == 4,
        number_of(row_bytes(row).subrange(2, 6)) == 8,
        signed_of(row_bytes(row).subrange(6, 14)) == pg_micros(row.ts),
        number_of(row_bytes(row).subrange(14, 18)) == 16,
        number_of(row_bytes(row).subrange(18, 34)) == row.sensor_id,
        number_of(row_bytes(row).subrange(34, 38)) == 4,
        number_of(row_bytes(row).subrange(38, 42)) == row.value.bits,
        number_of(row_bytes(row).subrange(42, 46)) == 2,
        number_of(row_bytes(row).subrange(46, 48)) == row.quality.number(),
{
    lemma_powers();
    lemma_valid_range(row.ts);
    let bytes = row_bytes(row);
    law_bytes_read_back(4, 2);
    law_bytes_read_back(8, 4);
    law_bytes_read_back(16, 4);
    law_bytes_read_back(4, 4);
    law_bytes_read_back(2, 4);
    lemma_width(pg_micros(row.ts), 8);
    law_signed_bytes_read_back(pg_micros(row.ts));
    law_bytes_read_back(row.sensor_id as int, 16);
    law_bytes_read_back(row.value.bits as int, 4);
    law_bytes_read_back(row.quality.number(), 2);
    assert(bytes.subrange(0, 2) =~= big_endian(4, 2));
    assert(bytes.subrange(2, 6) =~= big_endian(8, 4));
    assert(bytes.subrange(6, 14) =~= big_endian(pg_micros(row.ts), 8));
    assert(bytes.subrange(14, 18) =~= big_endian(16, 4));
    assert(bytes.subrange(18, 34) =~= big_endian(row.sensor_id as int, 16));
    assert(bytes.subrange(34, 38) =~= big_endian(4, 4));
    assert(bytes.subrange(38, 42) =~= big_endian(row.value.bits as int, 4));
    assert(bytes.subrange(42, 46) =~= big_endian(2, 4));
    assert(bytes.subrange(46, 48) =~= big_endian(row.quality.number(), 2));
}

proof fn lemma_row_width(row: StoredReading)
    ensures
        row_bytes(row).len() == 48,
{
    lemma_width(4, 2);
    lemma_width(8, 4);
    lemma_width(pg_micros(row.ts), 8);
    lemma_width(16, 4);
    lemma_width(row.sensor_id as int, 16);
    lemma_width(4, 4);
    lemma_width(row.value.bits as int, 4);
    lemma_width(2, 4);
    lemma_width(row.quality.number(), 2);
}

proof fn lemma_rows_width(rows: Seq<StoredReading>)
    ensures
        rows_bytes(rows).len() == 48 * rows.len(),
    decreases rows.len(),
{
    if rows.len() > 0 {
        lemma_rows_width(rows.drop_last());
        lemma_row_width(rows.last());
    }
}

/// A COPY is 21 bytes and 48 for each row.
pub proof fn law_copy_length(rows: Seq<StoredReading>)
    ensures
        copy_bytes(rows).len() == 21 + 48 * rows.len(),
{
    lemma_rows_width(rows);
    lemma_width(0, 4);
    lemma_width(-1, 2);
    assert(header_bytes().len() == 19);
}

/// Each row of a COPY stands whole in its place.
pub proof fn law_rows_stand_in_place(rows: Seq<StoredReading>, i: int)
    requires
        0 <= i < rows.len(),
    ensures
        copy_bytes(rows).subrange(19 + 48 * i, 19 + 48 * (i + 1)) == row_bytes(rows[i]),
{
    law_copy_length(rows);
    lemma_rows_width(rows);
    lemma_rows_in_place(rows, i);
    assert(header_bytes().len() == 19) by {
        lemma_width(0, 4);
    }
    assert(copy_bytes(rows).subrange(19 + 48 * i, 19 + 48 * (i + 1)) =~= rows_bytes(
        rows,
    ).subrange(48 * i, 48 * (i + 1)));
}

proof fn lemma_rows_in_place(rows: Seq<StoredReading>, i: int)
    requires
        0 <= i < rows.len(),
    ensures
        rows_bytes(rows).subrange(48 * i, 48 * (i + 1)) == row_bytes(rows[i]),
    decreases rows.len(),
{
    let fewer = rows.drop_last();
    lemma_rows_width(rows);
    lemma_rows_width(fewer);
    if i < fewer.len() {
        lemma_rows_in_place(fewer, i);
        assert(rows_bytes(rows).subrange(48 * i, 48 * (i + 1)) =~= rows_bytes(fewer).subrange(
            48 * i,
            48 * (i + 1),
        ));
    } else {
        assert(rows_bytes(rows).subrange(48 * i, 48 * (i + 1)) =~= row_bytes(rows.last()));
    }
}

/// Rows copied together are the rows copied one after the other.
pub proof fn law_rows_add_up(first: Seq<StoredReading>, second: Seq<StoredReading>)
    ensures
        rows_bytes(first + second) == rows_bytes(first) + rows_bytes(second),
    decreases second.len(),
{
    if second.len() == 0 {
        assert(first + second =~= first);
        assert(rows_bytes(first) + rows_bytes(second) =~= rows_bytes(first));
    } else {
        law_rows_add_up(first, second.drop_last());
        assert((first + second).drop_last() =~= first + second.drop_last());
        assert(rows_bytes(first + second) =~= rows_bytes(first) + rows_bytes(second));
    }
}

/// Whether two rows are the same as the database sees them: to the microsecond.
pub open spec fn same_row(a: StoredReading, b: StoredReading) -> bool {
    &&& a.ts.epoch_micros() == b.ts.epoch_micros()
    &&& a.sensor_id == b.sensor_id
    &&& a.value == b.value
    &&& a.quality == b.quality
}

/// Nothing is lost in a COPY: the same bytes mean the same rows, in the same order.
pub proof fn law_same_bytes_mean_same_rows(a: Seq<StoredReading>, b: Seq<StoredReading>)
    requires
        copy_bytes(a) == copy_bytes(b),
        forall|i: int| 0 <= i < a.len() ==> (#[trigger] a[i]).ts.valid(),
        forall|i: int| 0 <= i < b.len() ==> (#[trigger] b[i]).ts.valid(),
    ensures
        a.len() == b.len(),
        forall|i: int| 0 <= i < a.len() ==> same_row(#[trigger] a[i], b[i]),
{
    law_copy_length(a);
    law_copy_length(b);
    assert forall|i: int| 0 <= i < a.len() implies same_row(#[trigger] a[i], b[i]) by {
        law_rows_stand_in_place(a, i);
        law_rows_stand_in_place(b, i);
        law_row_reads_back(a[i]);
        law_row_reads_back(b[i]);
    }
}

/// Every COPY starts with the same nineteen bytes, the signature and eight zeros, and
/// ends with two bytes of ones, whatever its rows.
pub proof fn law_every_copy_has_its_frame(rows: Seq<StoredReading>)
    ensures
        copy_bytes(rows).subrange(0, 19) == seq![
            0x50u8, 0x47, 0x43, 0x4F, 0x50, 0x59, 0x0A, 0xFF, 0x0D, 0x0A, 0x00, 0, 0, 0, 0, 0, 0,
            0, 0,
        ],
        copy_bytes(rows).subrange(
            copy_bytes(rows).len() - 2,
            copy_bytes(rows).len() as int,
        ) == seq![0xFFu8, 0xFF],
{
    reveal_with_fuel(big_endian, 5);
    law_copy_length(rows);
    assert(big_endian(0, 4) =~= seq![0u8, 0, 0, 0]);
    assert(big_endian(-1, 2) =~= seq![0xFFu8, 0xFF]);
    let bytes = copy_bytes(rows);
    assert(header_bytes().len() == 19);
    assert(bytes.subrange(0, 19) =~= header_bytes());
    assert(bytes.subrange(bytes.len() - 2, bytes.len() as int) =~= big_endian(-1, 2));
}

/// Bytes hold digits to the base 256, the last one last.
pub proof fn law_bytes_are_digits(value: int, width: nat)
    requires
        width > 0,
    ensures
        big_endian(value, width).len() == width,
        big_endian(value, width).last() == value % 256,
        big_endian(value, width).drop_last() == big_endian(value / 256, (width - 1) as nat),
{
    lemma_width(value, width);
    assert(big_endian(value, width).drop_last() =~= big_endian(value / 256, (width - 1) as nat));
}

/// A row's instant is counted from the start of the year 2000: thirty years and seven
/// leap days after that of 1970.
pub proof fn law_rows_count_from_the_year_2000(row: StoredReading)
    requires
        row.ts.valid(),
    ensures
        signed_of(row_bytes(row).subrange(6, 14)) == row.ts.epoch_micros() - (30 * 365 + 7)
            * 86_400 * 1_000_000,
{
    law_row_reads_back(row);
}

} // verus!
