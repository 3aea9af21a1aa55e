use vstd::arithmetic::div_mod::lemma_fundamental_div_mod_converse;
use vstd::prelude::*;

verus! {

/// Error raised when a byte source cannot be turned into records.
#[derive(Debug, PartialEq, Eq, Structural)]
pub enum ReadError {
    FormatException,
}

/// The unsigned integer that `bytes` spell in big-endian order.
pub open spec fn be_value(bytes: Seq<u8>) -> nat
    decreases bytes.len(),
{
    if bytes.len() == 0 {
        0
    } else {
        be_value(bytes.drop_last()) * 256 + bytes.last() as nat
    }
}

/// A type that can be built from a chunk of `SIZE` bytes.
pub trait ConsumableType<const SIZE: usize>: Sized {
    /// The value that a chunk of `SIZE` bytes stands for.
    spec fn from_bytes(data: Seq<u8>) -> Self;

    fn from_arr(data_in: [u8; SIZE]) -> (r: Self)
        ensures
            r == Self::from_bytes(data_in@),
    ;

    /// Builds the value from the first `SIZE` bytes of `data_in`.
    fn from_vec(data_in: Vec<u8>) -> (r: Self)
        requires
            data_in.len() >= SIZE,
        ensures
            r == Self::from_bytes(data_in@.take(SIZE as int)),
    ;
}

/// A single byte is passed through unchanged.
impl ConsumableType<1> for u8 {
    open spec fn from_bytes(data: Seq<u8>) -> u8 {
        data[0]
    }

    fn from_arr(data_in: [u8; 1]) -> (r: u8) {
        data_in[0]
    }

    fn from_vec(data_in: Vec<u8>) -> (r: u8) {
        data_in[0]
    }
}

/// Four bytes are read as a big-endian 32-bit word: the bit pattern of an
/// IEEE-754 single-precision number stored in that order.
impl ConsumableType<4> for u32 {
    open spec fn from_bytes(data: Seq<u8>) -> u32 {
        be_value(data.take(4)) as u32
    }

    fn from_arr(data_in: [u8; 4]) -> (r: u32) {
        let r = word_of(data_in[0], data_in[1], data_in[2], data_in[3]);
        proof {
            assert(data_in@.take(4) =~= seq![data_in[0], data_in[1], data_in[2], data_in[3]]);
        }
        r
    }

    fn from_vec(data_in: Vec<u8>) -> (r: u32) {
        let r = word_of(data_in[0], data_in[1], data_in[2], data_in[3]);
        proof {
            assert(data_in@.take(4).take(4) =~= seq![data_in[0], data_in[1], data_in[2], data_in[3]]);
        }
        r
    }
}

/// The big-endian word made of four bytes.
fn word_of(b0: u8, b1: u8, b2: u8, b3: u8) -> (r: u32)
    ensures
        r as nat == be_value(seq![b0, b1, b2, b3]),
{
    proof {
        reveal_with_fuel(be_value, 5);
        assert(seq![b0, b1, b2, b3].drop_last() =~= seq![b0, b1, b2]);
        assert(seq![b0, b1, b2].drop_last() =~= seq![b0, b1]);
        assert(seq![b0, b1].drop_last() =~= seq![b0]);
        assert(seq![b0].drop_last() =~= Seq::<u8>::empty());
    }
    (b0 as u32) * 16777216 + (b1 as u32) * 65536 + (b2 as u32) * 256 + (b3 as u32)
}

/// The big-endian bytes of a 32-bit word.
pub open spec fn be_bytes(x: u32) -> Seq<u8> {
    seq![
        (x / 16777216) as u8,
        (x / 65536 % 256) as u8,
        (x / 256 % 256) as u8,
        (x % 256) as u8,
    ]
}

/// Writing a word as four big-endian bytes and decoding them gives the word
/// back, and decoding four bytes then writing the word gives the bytes back.
pub proof fn lemma_be_round_trip(x: u32, b: Seq<u8>)
    requires
        b.len() == 4,
    ensures
        <u32 as ConsumableType<4>>::from_bytes(be_bytes(x)) == x,
        be_bytes(<u32 as ConsumableType<4>>::from_bytes(b)) == b,
{
    reveal_with_fuel(be_value, 5);
    let e = be_bytes(x);
    assert(e.take(4) =~= e);
    assert(e.drop_last() =~= seq![e[0], e[1], e[2]]);
    assert(seq![e[0], e[1], e[2]].drop_last() =~= seq![e[0], e[1]]);
    assert(seq![e[0], e[1]].drop_last() =~= seq![e[0]]);
    assert(seq![e[0]].drop_last() =~= Seq::<u8>::empty());
    assert(b.take(4) =~= b);
    assert(b.drop_last() =~= seq![b[0], b[1], b[2]]);
    assert(seq![b[0], b[1], b[2]].drop_last() =~= seq![b[0], b[1]]);
    assert(seq![b[0], b[1]].drop_last() =~= seq![b[0]]);
    assert(seq![b[0]].drop_last() =~= Seq::<u8>::empty());
    let v = be_value(b);
    assert(v == b[0] as nat * 16777216 + b[1] as nat * 65536 + b[2] as nat * 256 + b[3] as nat);
    assert(v / 16777216 == b[0]) by (nonlinear_arith)
        requires v == b[0] as nat * 16777216 + b[1] as nat * 65536 + b[2] as nat * 256 + b[3] as nat,
            b[1] < 256, b[2] < 256, b[3] < 256;
    assert(v / 65536 % 256 == b[1]) by (nonlinear_arith)
        requires v == b[0] as nat * 16777216 + b[1] as nat * 65536 + b[2] as nat * 256 + b[3] as nat,
            b[1] < 256, b[2] < 256, b[3] < 256;
    assert(v / 256 % 256 == b[2]) by (nonlinear_arith)
        requires v == b[0] as nat * 16777216 + b[1] as nat * 65536 + b[2] as nat * 256 + b[3] as nat,
            b[1] < 256, b[2] < 256, b[3] < 256;
    assert(v % 256 == b[3]) by (nonlinear_arith)
        requires v == b[0] as nat * 16777216 + b[1] as nat * 65536 + b[2] as nat * 256 + b[3] as nat,
            b[1] < 256, b[2] < 256, b[3] < 256;
    assert(be_bytes(v as u32) =~= b);
    assert(e[0] as nat * 16777216 + e[1] as nat * 65536 + e[2] as nat * 256 + e[3] as nat == x)
        by (nonlinear_arith)
        requires
            e[0] == (x / 16777216) as u8,
            e[1] == (x / 65536 % 256) as u8,
            e[2] == (x / 256 % 256) as u8,
            e[3] == (x % 256) as u8,
            0 <= x < 0x1_0000_0000,
    ;
}

/// The values that `bytes` decode to, one for each whole chunk of `SIZE`
/// bytes, in order; a trailing partial chunk yields nothing.
pub open spec fn decoded_chunks<T: ConsumableType<SIZE>, const SIZE: usize>(bytes: Seq<u8>) -> Seq<T> {
    Seq::new(
        bytes.len() / (SIZE as nat),
        |k: int| T::from_bytes(bytes.subrange(k * SIZE, k * SIZE + SIZE)),
    )
}

/// Decoding a source of `m` whole chunks yields `m` values, and bytes that
/// fall short of one more chunk add nothing.
pub proof fn lemma_whole_chunks<T: ConsumableType<SIZE>, const SIZE: usize>(
    bytes: Seq<u8>,
    extra: Seq<u8>,
    m: nat,
)
    requires
        SIZE > 0,
        bytes.len() == m * SIZE,
        extra.len() < SIZE,
    ensures
        decoded_chunks::<T, SIZE>(bytes).len() == m,
        decoded_chunks::<T, SIZE>(bytes + extra) == decoded_chunks::<T, SIZE>(bytes),
{
    lemma_fundamental_div_mod_converse(bytes.len() as int, SIZE as int, m as int, 0);
    lemma_fundamental_div_mod_converse(
        (bytes + extra).len() as int,
        SIZE as int,
        m as int,
        extra.len() as int,
    );
    let whole = decoded_chunks::<T, SIZE>(bytes);
    let more = decoded_chunks::<T, SIZE>(bytes + extra);
    assert forall|k: int| 0 <= k < m implies more[k] == whole[k] by {
        assert(k * SIZE + SIZE <= m * SIZE) by (nonlinear_arith)
            requires
                0 <= k < m,
        ;
        assert(k * SIZE >= 0) by (nonlinear_arith)
            requires
                0 <= k,
        ;
        assert((bytes + extra).subrange(k * SIZE, k * SIZE + SIZE) =~= bytes.subrange(
            k * SIZE,
            k * SIZE + SIZE,
        ));
    }
    assert(more =~= whole);
}

/// A source of bytes that hands them out as fixed-width records.
pub trait DataReader {
    /// The bytes not yet consumed.
    spec fn unread(&self) -> Seq<u8>;

    /// Decodes every whole chunk of `SIZE` unread bytes, in order; the bytes
    /// of a trailing partial chunk stay unread.
    fn consume<T: ConsumableType<SIZE>, const SIZE: usize>(&mut self) -> (r: Vec<T>)
        requires
            SIZE > 0,
        ensures
            r@ == decoded_chunks::<T, SIZE>(old(self).unread()),
            final(self).unread() == old(self).unread().skip(r.len() * SIZE),
            final(self).unread().len() < SIZE,
    ;
}

/// What is left of `buffer` from position `current` on.
pub open spec fn rest_of(buffer: Seq<u8>, current: int) -> Seq<u8> {
    if current <= buffer.len() {
        buffer.skip(current)
    } else {
        Seq::empty()
    }
}

/// Decodes the whole chunks of `buffer` from `*current` on and moves
/// `*current` past them.
fn take_chunks<T: ConsumableType<SIZE>, const SIZE: usize>(
    buffer: &Vec<u8>,
    current: &mut usize,
) -> (r: Vec<T>)
    requires
        SIZE > 0,
    ensures
        r@ == decoded_chunks::<T, SIZE>(rest_of(buffer@, *old(current) as int)),
        rest_of(buffer@, *final(current) as int) == rest_of(buffer@, *old(current) as int).skip(
            r.len() * SIZE,
        ),
        rest_of(buffer@, *final(current) as int).len() < SIZE,
{
    let ghost start = *current as int;
    let ghost rest = rest_of(buffer@, start);
    let mut ret: Vec<T> = Vec::new();
    if *current > buffer.len() {
        assert(decoded_chunks::<T, SIZE>(rest) =~= Seq::<T>::empty());
        assert(rest.skip(0) =~= rest);
        assert(ret.len() * SIZE == 0) by (nonlinear_arith) requires ret.len() == 0;
        return ret;
    }
    let mut buf = [0u8; SIZE];
    assert(ret.len() * SIZE == 0) by (nonlinear_arith) requires ret.len() == 0;
    while buffer.len() - *current >= SIZE
        invariant
            SIZE > 0,
            0 <= start <= *current <= buffer.len(),
            rest == buffer@.skip(start),
            *current == start + ret.len() * SIZE,
            forall|k: int|
                0 <= k < ret.len() ==> #[trigger] ret@[k] == T::from_bytes(
                    rest.subrange(k * SIZE, k * SIZE + SIZE),
                ),
        decreases buffer.len() - *current,
    {
        let pos = *current;
        let ghost k = ret.len() as int;
        for i in 0..SIZE
            invariant
                pos + SIZE <= buffer.len(),
                pos == start + k * SIZE,
                rest == buffer@.skip(start),
                0 <= start <= pos,
                buf@.len() == SIZE,
                forall|j: int| 0 <= j < i ==> buf@[j] == buffer@[pos + j],
        {
            buf[i] = buffer[i + pos];
        }
        assert(0 <= k * SIZE) by (nonlinear_arith)
            requires
                0 <= k,
        ;
        assert forall|j: int| 0 <= j < SIZE implies buf@[j] == rest.subrange(
            k * SIZE,
            k * SIZE + SIZE,
        )[j] by {
            assert(rest[k * SIZE + j] == buffer@[pos + j]);
        }
        assert(buf@ =~= rest.subrange(k * SIZE, k * SIZE + SIZE));
        *current = pos + SIZE;
        ret.push(T::from_arr(buf));
        assert((k + 1) * SIZE == k * SIZE + SIZE) by (nonlinear_arith);
    }
    proof {
        lemma_fundamental_div_mod_converse(
            rest.len() as int,
            SIZE as int,
            ret.len() as int,
            buffer.len() - *current,
        );
    }
    assert(ret@ =~= decoded_chunks::<T, SIZE>(rest));
    assert(rest_of(buffer@, *current as int) =~= rest.skip(ret.len() * SIZE));
    ret
}

/// Records stored back to back in a byte source, with no header or footer.
pub struct BinaryFileReader<'a> {
    bytes: &'a Vec<u8>,
    current: usize,
}

impl<'a> BinaryFileReader<'a> {
    /// A reader positioned at the start of `bytes`.
    pub fn new(bytes: &'a Vec<u8>) -> (r: BinaryFileReader<'a>)
        ensures
            r.unread() == bytes@,
    {
        let r = BinaryFileReader { bytes, current: 0 };
        assert(r.bytes@.skip(0) =~= r.bytes@);
        r
    }
}

impl<'a> DataReader for BinaryFileReader<'a> {
    closed spec fn unread(&self) -> Seq<u8> {
        rest_of(self.bytes@, self.current as int)
    }

    fn consume<T: ConsumableType<SIZE>, const SIZE: usize>(&mut self) -> (r: Vec<T>) {
        take_chunks(self.bytes, &mut self.current)
    }
}

#[verifier::external_type_specification]
#[verifier::external_body]
pub struct ExDecodingError(png::DecodingError);

/// The pixel bytes that the first frame of the PNG image in `file` decodes
/// to, or `None` where `file` is not an image the decoder accepts.
pub uninterp spec fn png_pixels(file: Seq<u8>) -> Option<Seq<u8>>;

/// Relies on png's `Decoder::new`, `Decoder::read_info`,
/// `Reader::output_buffer_size` and `Reader::next_frame`: the first frame of
/// the image, in a buffer of the size the decoder asks for, or the decoder's
/// error. The outcome depends on the bytes alone.
#[verifier::external_body]
fn decode_png(file: &Vec<u8>) -> (r: Result<Vec<u8>, png::DecodingError>)
    ensures
        match r {
            Ok(pixels) => png_pixels(file@) == Some(pixels@),
            Err(_) => png_pixels(file@) is None,
        },
{
    let decoder = png::Decoder::new(file.as_slice());
    let mut reader = decoder.read_info()?;
    let mut buf = vec![0; reader.output_buffer_size()];
    reader.next_frame(&mut buf)?;
    Ok(buf)
}

/// The pixel buffer of a PNG image, handed out as fixed-width records.
pub struct PNGFileReader {
    buffer: Vec<u8>,
    current: usize,
}

impl PNGFileReader {
    /// Decodes the whole image in `file` up front; a file that does not
    /// decode is a format error.
    pub fn new(file: &Vec<u8>) -> (r: Result<PNGFileReader, ReadError>)
        ensures
            match r {
                Ok(reader) => png_pixels(file@) == Some(reader.unread()),
                Err(e) => png_pixels(file@) is None && e == ReadError::FormatException,
            },
    {
        match decode_png(file) {
            Ok(buffer) => {
                let reader = PNGFileReader { buffer, current: 0 };
                assert(reader.buffer@.skip(0) =~= reader.buffer@);
                Ok(reader)
            },
            Err(_) => Err(ReadError::FormatException),
        }
    }
}

impl DataReader for PNGFileReader {
    closed spec fn unread(&self) -> Seq<u8> {
        rest_of(self.buffer@, self.current as int)
    }

    fn consume<T: ConsumableType<SIZE>, const SIZE: usize>(&mut self) -> (r: Vec<T>) {
        take_chunks(&self.buffer, &mut self.current)
    }
}

} // verus!
