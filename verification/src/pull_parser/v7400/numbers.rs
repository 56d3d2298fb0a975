//! Numbers that are written down are read back.
use vstd::prelude::*;

use crate::low::encoding::{
    complement, le_bytes, lemma_bytes_are_written_back, lemma_limits, lemma_number_is_read_back,
    lemma_signed_is_read_back, starts_with,
};
use crate::low::v7400::{Binary32, Binary64};
use crate::pull_parser::error::{Decoded, Error, ErrorKind};
use crate::pull_parser::reader::{IoError, ParserSource};
use crate::pull_parser::v7400::attribute::array::{bool_of, bools_in, elements_in, ArrayElement};
use crate::pull_parser::v7400::read::{obtains, FromReader};

verus! {

/// A number that is written down with its lowest byte first.
pub trait LittleEndian: Sized {
    /// The number of bytes that the number takes.
    spec fn width() -> nat;

    /// The bytes of the number.
    spec fn bytes_of(self) -> Seq<u8>;

    /// The bytes of a number are as many as they should be.
    proof fn lemma_bytes_len(self)
        ensures
            Self::width() > 0,
            self.bytes_of().len() == Self::width(),
    ;
}

impl LittleEndian for u8 {
    open spec fn width() -> nat {
        1
    }

    open spec fn bytes_of(self) -> Seq<u8> {
        seq![self]
    }

    proof fn lemma_bytes_len(self) {
    }
}

impl LittleEndian for i16 {
    open spec fn width() -> nat {
        2
    }

    open spec fn bytes_of(self) -> Seq<u8> {
        le_bytes(complement(self as int, 2), 2)
    }

    proof fn lemma_bytes_len(self) {
        lemma_number_is_read_back(complement(self as int, 2), 2);
    }
}

impl LittleEndian for i32 {
    open spec fn width() -> nat {
        4
    }

    open spec fn bytes_of(self) -> Seq<u8> {
        le_bytes(complement(self as int, 4), 4)
    }

    proof fn lemma_bytes_len(self) {
        lemma_number_is_read_back(complement(self as int, 4), 4);
    }
}

impl LittleEndian for i64 {
    open spec fn width() -> nat {
        8
    }

    open spec fn bytes_of(self) -> Seq<u8> {
        le_bytes(complement(self as int, 8), 8)
    }

    proof fn lemma_bytes_len(self) {
        lemma_number_is_read_back(complement(self as int, 8), 8);
    }
}

impl LittleEndian for Binary32 {
    open spec fn width() -> nat {
        4
    }

    open spec fn bytes_of(self) -> Seq<u8> {
        le_bytes(self.0 as nat, 4)
    }

    proof fn lemma_bytes_len(self) {
        lemma_number_is_read_back(self.0 as nat, 4);
    }
}

impl LittleEndian for Binary64 {
    open spec fn width() -> nat {
        8
    }

    open spec fn bytes_of(self) -> Seq<u8> {
        le_bytes(self.0 as nat, 8)
    }

    proof fn lemma_bytes_len(self) {
        lemma_number_is_read_back(self.0 as nat, 8);
    }
}

/// A single number that is written is read back, whatever follows it, and what is read
/// is what is written.
pub trait ReadBack: LittleEndian + FromReader<V = Self> + View<V = Self> {
    /// The bytes of a number, at the start of `bytes`, are read as that number.
    proof fn lemma_is_read_back(self, bytes: Seq<u8>)
        requires
            starts_with(bytes, self.bytes_of()),
        ensures
            Self::decode(bytes) == Decoded::<Self>::Value(self, Self::width()),
    ;

    /// Enough bytes are read as the number that they start with the bytes of, so that
    /// different bytes are read as different numbers. Fewer bytes are no number.
    proof fn lemma_is_written_back(bytes: Seq<u8>)
        ensures
            match Self::decode(bytes) {
                Decoded::Value(value, len) => {
                    &&& len == Self::width()
                    &&& starts_with(bytes, value.bytes_of())
                },
                Decoded::Truncated => bytes.len() < Self::width(),
                Decoded::Invalid(_) => false,
            },
    ;

    /// A number is all that is known of it.
    proof fn lemma_stands_for_itself(self)
        ensures
            self@ == self,
    ;
}

impl ReadBack for u8 {
    proof fn lemma_is_read_back(self, bytes: Seq<u8>) {
        assert(bytes[0] == bytes.take(1)[0]);
    }

    proof fn lemma_is_written_back(bytes: Seq<u8>) {
        if bytes.len() > 0 {
            assert(bytes.take(1) =~= seq![bytes[0]]);
        }
    }

    proof fn lemma_stands_for_itself(self) {
    }
}

impl ReadBack for i16 {
    proof fn lemma_is_read_back(self, bytes: Seq<u8>) {
        lemma_limits();
        lemma_signed_is_read_back(self as int, 2);
        lemma_number_is_read_back(complement(self as int, 2), 2);
    }

    proof fn lemma_is_written_back(bytes: Seq<u8>) {
        lemma_limits();
        if bytes.len() >= 2 {
            lemma_bytes_are_written_back(bytes.take(2));
        }
    }

    proof fn lemma_stands_for_itself(self) {
    }
}

impl ReadBack for i32 {
    proof fn lemma_is_read_back(self, bytes: Seq<u8>) {
        lemma_limits();
        lemma_signed_is_read_back(self as int, 4);
        lemma_number_is_read_back(complement(self as int, 4), 4);
    }

    proof fn lemma_is_written_back(bytes: Seq<u8>) {
        lemma_limits();
        if bytes.len() >= 4 {
            lemma_bytes_are_written_back(bytes.take(4));
        }
    }

    proof fn lemma_stands_for_itself(self) {
    }
}

impl ReadBack for i64 {
    proof fn lemma_is_read_back(self, bytes: Seq<u8>) {
        lemma_limits();
        lemma_signed_is_read_back(self as int, 8);
        lemma_number_is_read_back(complement(self as int, 8), 8);
    }

    proof fn lemma_is_written_back(bytes: Seq<u8>) {
        lemma_limits();
        if bytes.len() >= 8 {
            lemma_bytes_are_written_back(bytes.take(8));
        }
    }

    proof fn lemma_stands_for_itself(self) {
    }
}

impl ReadBack for Binary32 {
    proof fn lemma_is_read_back(self, bytes: Seq<u8>) {
        lemma_limits();
        lemma_number_is_read_back(self.0 as nat, 4);
    }

    proof fn lemma_is_written_back(bytes: Seq<u8>) {
        lemma_limits();
        if bytes.len() >= 4 {
            lemma_bytes_are_written_back(bytes.take(4));
        }
    }

    proof fn lemma_stands_for_itself(self) {
    }
}

impl ReadBack for Binary64 {
    proof fn lemma_is_read_back(self, bytes: Seq<u8>) {
        lemma_limits();
        lemma_number_is_read_back(self.0 as nat, 8);
    }

    proof fn lemma_is_written_back(bytes: Seq<u8>) {
        lemma_limits();
        if bytes.len() >= 8 {
            lemma_bytes_are_written_back(bytes.take(8));
        }
    }

    proof fn lemma_stands_for_itself(self) {
    }
}

/// A number that the source has next is read, and the source goes on after it, unless
/// it fails.
pub proof fn lemma_number_is_obtained<T: ReadBack, S: ParserSource>(
    value: T,
    reader: &mut S,
    r: Result<T, Error>,
)
    requires
        starts_with(old(reader).stream().rest, value.bytes_of()),
        old(reader).failures() == Set::<IoError>::empty(),
        call_ensures(<T as FromReader>::from_reader::<S>, (reader,), r),
    ensures
        r == Ok::<T, Error>(value),
        final(reader).stream().pos == old(reader).stream().pos + T::width(),
        old(reader).stream().rest == value.bytes_of() + final(reader).stream().rest,
{
    let s = old(reader).stream();
    assert(obtains(T::decode(s.rest), *old(reader), *final(reader), r));
    value.lemma_bytes_len();
    value.lemma_is_read_back(s.rest);
    if let Ok(got) = r {
        got.lemma_stands_for_itself();
        let len = T::width() as int;
        assert(s.rest =~= s.rest.take(len) + s.rest.skip(len));
    }
}

/// Fewer bytes than a number takes are no number.
pub proof fn lemma_cut_is_no_number<T: ReadBack>(bytes: Seq<u8>)
    requires
        bytes.len() < T::width(),
    ensures
        T::decode(bytes) is Truncated,
{
    T::lemma_is_written_back(bytes);
    if let Decoded::Value(value, len) = T::decode(bytes) {
        value.lemma_bytes_len();
    }
}

/// Where a source ends within a number, that is what is told, and the source is then at
/// its end.
pub proof fn lemma_cut_number_is_refused<T: ReadBack, S: ParserSource>(
    reader: &mut S,
    r: Result<T, Error>,
)
    requires
        old(reader).stream().rest.len() < T::width(),
        old(reader).failures() == Set::<IoError>::empty(),
        call_ensures(<T as FromReader>::from_reader::<S>, (reader,), r),
    ensures
        r matches Err(e) && e.kind == ErrorKind::Io(IoError::UnexpectedEof) && e.position is None,
        final(reader).stream().rest.len() == 0,
        final(reader).stream().pos == old(reader).stream().pos + old(reader).stream().rest.len(),
{
    let s = old(reader).stream();
    assert(obtains(T::decode(s.rest), *old(reader), *final(reader), r));
    lemma_cut_is_no_number::<T>(s.rest);
}

/// No two runs of bytes are read as the same number.
pub proof fn lemma_numbers_are_told_apart<T: ReadBack>(a: Seq<u8>, b: Seq<u8>)
    requires
        a.len() == T::width(),
        b.len() == T::width(),
        T::decode(a) == T::decode(b),
    ensures
        a == b,
{
    T::lemma_is_written_back(a);
    T::lemma_is_written_back(b);
    if let Decoded::Value(value, len) = T::decode(a) {
        value.lemma_bytes_len();
        assert(a.take(a.len() as int) =~= a);
        assert(b.take(b.len() as int) =~= b);
    }
}

/// A number that is also an element of an array.
pub trait ElementReadBack: ReadBack + ArrayElement {
    /// An element takes as many bytes as a single number does.
    proof fn lemma_element_width()
        ensures
            Self::byte_len() == Self::width(),
    ;

    /// An element of an array is read as a single number is.
    proof fn lemma_element_is_a_number(bytes: Seq<u8>)
        requires
            bytes.len() == Self::width(),
        ensures
            Self::decode(bytes) == Decoded::<Self>::Value(Self::value_of(bytes), Self::width()),
    ;
}

impl ElementReadBack for i32 {
    proof fn lemma_element_width() {
    }

    proof fn lemma_element_is_a_number(bytes: Seq<u8>) {
        assert(bytes.take(4) =~= bytes);
    }
}

impl ElementReadBack for i64 {
    proof fn lemma_element_width() {
    }

    proof fn lemma_element_is_a_number(bytes: Seq<u8>) {
        assert(bytes.take(8) =~= bytes);
    }
}

impl ElementReadBack for Binary32 {
    proof fn lemma_element_width() {
    }

    proof fn lemma_element_is_a_number(bytes: Seq<u8>) {
        assert(bytes.take(4) =~= bytes);
    }
}

impl ElementReadBack for Binary64 {
    proof fn lemma_element_width() {
    }

    proof fn lemma_element_is_a_number(bytes: Seq<u8>) {
        assert(bytes.take(8) =~= bytes);
    }
}

/// The bytes of some numbers, one after the other.
pub open spec fn all_bytes<T: LittleEndian>(values: Seq<T>) -> Seq<u8>
    decreases values.len(),
{
    if values.len() == 0 {
        Seq::empty()
    } else {
        values[0].bytes_of() + all_bytes(values.drop_first())
    }
}

/// The elements of an array that are written one after the other are read back, whatever
/// follows them.
pub proof fn lemma_elements_are_read_back<T: ElementReadBack>(values: Seq<T>, data: Seq<u8>)
    requires
        starts_with(data, all_bytes(values)),
    ensures
        elements_in::<T>(data, values.len()) == Some(values),
        all_bytes(values).len() == values.len() * T::width(),
    decreases values.len(),
{
    let width = T::width() as int;
    if values.len() == 0 {
        assert(values =~= Seq::empty());
        assert(values.len() * width == 0) by (nonlinear_arith)
            requires
                values.len() == 0,
        ;
    } else {
        let others = values.drop_first();
        let first = values[0].bytes_of();
        let all = all_bytes(values);
        values[0].lemma_bytes_len();
        T::lemma_byte_len();
        T::lemma_element_width();
        let rest = data.skip(width);
        assert(data.take(all.len() as int) == all);
        assert(data.take(width) =~= data.take(all.len() as int).take(width));
        assert(all.take(width) =~= first);
        assert(rest.take(all.len() - width) =~= data.take(all.len() as int).skip(width));
        assert(all.skip(width) =~= all_bytes(others));
        lemma_elements_are_read_back(others, rest);
        assert(first.take(width) =~= first);
        values[0].lemma_is_read_back(first);
        T::lemma_element_is_a_number(first);
        assert(seq![values[0]] + others =~= values);
        assert(values.len() * width == others.len() * width + width) by (nonlinear_arith)
            requires
                values.len() == others.len() + 1,
        ;
    }
}

/// The elements that are read are those that the bytes are written from.
pub proof fn lemma_elements_are_written_back<T: ElementReadBack>(data: Seq<u8>, count: nat)
    ensures
        elements_in::<T>(data, count) matches Some(values) ==> {
            &&& values.len() == count
            &&& starts_with(data, all_bytes(values))
        },
    decreases count,
{
    if let Some(values) = elements_in::<T>(data, count) {
        if count == 0 {
            assert(data.take(0) =~= Seq::empty());
        } else {
            T::lemma_byte_len();
            T::lemma_element_width();
            let len = T::byte_len() as int;
            lemma_elements_are_written_back::<T>(data.skip(len), (count - 1) as nat);
            let others = elements_in::<T>(data.skip(len), (count - 1) as nat).unwrap();
            assert(values.drop_first() =~= others);
            let first = data.take(len);
            T::lemma_element_is_a_number(first);
            T::lemma_is_written_back(first);
            values[0].lemma_bytes_len();
            assert(first.take(len) =~= first);
            let all = all_bytes(values);
            assert(data.take(all.len() as int) =~= first + data.skip(len).take(
                all_bytes(others).len() as int,
            ));
        }
    }
}

/// The truth values of an array are read back from bytes of which the lowest bit is set
/// where they are true. There are as many as there are bytes, or fewer.
pub proof fn lemma_truths_are_read_back(values: Seq<bool>, data: Seq<u8>)
    requires
        values.len() <= data.len(),
        forall|i: int| 0 <= i < values.len() ==> (data[i] & 1 == 1) == #[trigger] values[i],
    ensures
        bools_in(data, values.len()) == Some(values),
{
    assert forall|i: int| 0 <= i < values.len() implies bool_of(data[i])
        == #[trigger] values[i] by {
        lemma_truth_is_the_lowest_bit(data[i]);
    }
    assert(Seq::new(values.len(), |i: int| bool_of(data[i])) =~= values);
}

/// A byte is true where its lowest bit is set.
pub proof fn lemma_truth_is_the_lowest_bit(raw: u8)
    ensures
        bool_of(raw) == (raw & 1 == 1),
{
    assert((raw & 1 == 1) == (raw % 2 == 1)) by (bit_vector);
}

} // verus!
