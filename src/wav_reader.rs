use vstd::prelude::*;

verus! {

pub type ChannelCount = u16;

/// Sample encoding named in the format chunk.
#[derive(Debug, PartialEq, Eq, Structural, Clone, Copy)]
pub enum WavFormat {
    Pcm,
    Unsupported,
}

impl WavFormat {
    /// Format code 1 is PCM; every other code is unsupported.
    fn new(value: u16) -> (r: WavFormat)
        ensures
            r == (if value == 1 {
                WavFormat::Pcm
            } else {
                WavFormat::Unsupported
            }),
    {
        match value {
            1 => WavFormat::Pcm,
            _ => WavFormat::Unsupported,
        }
    }
}

/// Little-endian value of the two bytes at `pos`.
pub open spec fn le_u16(s: Seq<u8>, pos: int) -> int {
    s[pos] + 256 * s[pos + 1]
}

/// Little-endian value of the four bytes at `pos`.
pub open spec fn le_u32(s: Seq<u8>, pos: int) -> int {
    s[pos] + 256 * s[pos + 1] + 65536 * s[pos + 2] + 16777216 * s[pos + 3]
}

/// Two's-complement value of the little-endian pair at `pos`.
pub open spec fn le_i16(s: Seq<u8>, pos: int) -> int {
    if le_u16(s, pos) >= 32768 {
        le_u16(s, pos) - 65536
    } else {
        le_u16(s, pos)
    }
}

/// The four bytes at `pos` spell `tag`.
pub open spec fn tag_at(s: Seq<u8>, pos: int, tag: Seq<u8>) -> bool {
    pos + 4 <= s.len() && s.subrange(pos, pos + 4) == tag
}

/// The `N` bytes at `pos`.
fn vec8_slice_to_array<const N: usize>(v: &[u8], pos: usize) -> (r: [u8; N])
    requires
        pos + N <= v@.len(),
    ensures
        r@ == v@.subrange(pos as int, pos + N),
{
    let len = v.len();
    let mut r = [0u8; N];
    let mut i: usize = 0;
    while i < N
        invariant
            i <= N,
            pos + N <= v@.len(),
            len == v@.len(),
            r@.len() == N,
            forall|k: int| 0 <= k < i ==> r@[k] == v@[pos + k],
        decreases N - i,
    {
        r[i] = v[pos + i];
        i = i + 1;
    }
    proof {
        assert(r@ =~= v@.subrange(pos as int, pos + N));
    }
    r
}

/// The little-endian `u32` at `pos`.
fn read_u32_value(v: &[u8], pos: usize) -> (r: u32)
    requires
        pos + 4 <= v@.len(),
    ensures
        r == le_u32(v@, pos as int),
{
    let b = vec8_slice_to_array::<4>(v, pos);
    b[0] as u32 + 256 * b[1] as u32 + 65536 * b[2] as u32 + 16777216 * b[3] as u32
}

/// The little-endian `u16` at `pos`.
fn read_u16_value(v: &[u8], pos: usize) -> (r: u16)
    requires
        pos + 2 <= v@.len(),
    ensures
        r == le_u16(v@, pos as int),
{
    let b = vec8_slice_to_array::<2>(v, pos);
    b[0] as u16 + 256 * b[1] as u16
}

/// The little-endian `i16` at `pos`.
fn read_i16_value(v: &[u8], pos: usize) -> (r: i16)
    requires
        pos + 2 <= v@.len(),
    ensures
        r == le_i16(v@, pos as int),
{
    let u = read_u16_value(v, pos);
    if u >= 32768 {
        (u as i32 - 65536) as i16
    } else {
        u as i16
    }
}

/// Where the samples of the first "data" chunk at or after `start` begin,
/// walking chunk by chunk: a 4-byte tag, a 4-byte little-endian size, then
/// that many bytes. `None` when the walk leaves the file, or cuts a chunk
/// header short, before a data chunk.
pub open spec fn data_offset_from(s: Seq<u8>, start: int) -> Option<int>
    decreases s.len() - start,
{
    if start < 0 || start + 4 > s.len() {
        None
    } else if start + 8 > s.len() {
        None
    } else if tag_at(s, start, seq![0x64u8, 0x61u8, 0x74u8, 0x61u8]) {
        Some(start + 8)
    } else if start + 8 + le_u32(s, start + 4) > s.len() {
        None
    } else {
        data_offset_from(s, start + 8 + le_u32(s, start + 4))
    }
}

/// A PCM wave file held in memory, with its header fields and a cursor
/// over its 16-bit samples.
pub struct WavFile {
    pub is_valid: bool,
    pub file_name: String,
    pub file_byte_size: u32,
    pub fmt_byte_size: u32,
    pub wav_format: WavFormat,
    pub channel_count: ChannelCount,
    pub sample_rate: u32,
    pub bytes_per_sec: u32,
    pub bytes_per_sample: u16,
    pub bits_per_sample: u16,
    pub current_sample: usize,
    pub bytes: Vec<u8>,
    pub data_chunk_offset: usize,
}

/// Header size up to and including the bits-per-sample field.
pub const HEADER_SIZE: usize = 36;

/// The file of `len` bytes is a stereo PCM wave whose header fields read as
/// shown.
pub open spec fn header_valid(s: Seq<u8>, len: int) -> bool {
    &&& tag_at(s, 0, seq![0x52u8, 0x49u8, 0x46u8, 0x46u8])
    &&& le_u32(s, 4) == len
    &&& tag_at(s, 8, seq![0x57u8, 0x41u8, 0x56u8, 0x45u8])
    &&& tag_at(s, 12, seq![0x66u8, 0x6Du8, 0x74u8, 0x20u8])
    &&& le_u32(s, 16) == 16
    &&& le_u16(s, 20) == 1
    &&& le_u16(s, 22) == 2
}

fn tag_matches(s: &[u8], pos: usize, tag: [u8; 4]) -> (r: bool)
    requires
        pos + 4 <= s@.len(),
    ensures
        r == (s@.subrange(pos as int, pos + 4) == tag@),
{
    let b = vec8_slice_to_array::<4>(s, pos);
    let r = b[0] == tag[0] && b[1] == tag[1] && b[2] == tag[2] && b[3] == tag[3];
    proof {
        if r {
            assert(b@ =~= tag@);
        }
    }
    r
}

impl WavFile {
    /// An empty, invalid file.
    pub fn invalid() -> (r: WavFile)
        ensures
            !r.is_valid,
            r.file_name@ == Seq::<char>::empty(),
            r.wav_format == WavFormat::Unsupported,
            r.channel_count == 0,
            r.sample_rate == 0,
            r.bytes@ == Seq::<u8>::empty(),
            r.current_sample == 0,
            r.data_chunk_offset == 0,
    {
        WavFile {
            is_valid: false,
            file_name: String::new(),
            file_byte_size: 0,
            fmt_byte_size: 0,
            wav_format: WavFormat::Unsupported,
            channel_count: 0,
            sample_rate: 0,
            bytes_per_sec: 0,
            bytes_per_sample: 0,
            bits_per_sample: 0,
            current_sample: 0,
            bytes: Vec::new(),
            data_chunk_offset: 0,
        }
    }

    /// Reads the header of a file of `file_len` bytes whose contents are
    /// `bytes`, and finds its first data chunk. A file too short for the
    /// header, or whose chunk walk leaves the file before a data chunk,
    /// gives an invalid file with no samples.
    pub fn from_bytes(file_name: String, bytes: Vec<u8>, file_len: u64) -> (r: WavFile)
        ensures
            r.current_sample == 0,
            r.bytes@ == bytes@,
            r.file_name@ == file_name@,
            bytes@.len() < HEADER_SIZE ==> !r.is_valid && r.data_chunk_offset == bytes@.len(),
            bytes@.len() >= HEADER_SIZE ==> {
                &&& r.file_byte_size == le_u32(bytes@, 4)
                &&& r.fmt_byte_size == le_u32(bytes@, 16)
                &&& r.wav_format == (if le_u16(bytes@, 20) == 1 {
                    WavFormat::Pcm
                } else {
                    WavFormat::Unsupported
                })
                &&& r.channel_count == le_u16(bytes@, 22)
                &&& r.sample_rate == le_u32(bytes@, 24)
                &&& r.bytes_per_sec == le_u32(bytes@, 28)
                &&& r.bytes_per_sample == le_u16(bytes@, 32)
                &&& r.bits_per_sample == le_u16(bytes@, 34)
                &&& match data_offset_from(bytes@, HEADER_SIZE as int) {
                    Some(o) => r.data_chunk_offset == o && r.is_valid == header_valid(
                        bytes@,
                        file_len as int,
                    ),
                    None => r.data_chunk_offset == bytes@.len() && !r.is_valid,
                }
            },
    {
        if bytes.len() < HEADER_SIZE {
            let n = bytes.len();
            let mut r = WavFile::invalid();
            r.file_name = file_name;
            r.bytes = bytes;
            r.data_chunk_offset = n;
            return r;
        }
        let file_byte_size = read_u32_value(bytes.as_slice(), 4);
        let fmt_byte_size = read_u32_value(bytes.as_slice(), 16);
        let wav_format = WavFormat::new(read_u16_value(bytes.as_slice(), 20));
        let channel_count = read_u16_value(bytes.as_slice(), 22);
        let sample_rate = read_u32_value(bytes.as_slice(), 24);
        let bytes_per_sec = read_u32_value(bytes.as_slice(), 28);
        let bytes_per_sample = read_u16_value(bytes.as_slice(), 32);
        let bits_per_sample = read_u16_value(bytes.as_slice(), 34);
        let found = find_data_chunk(bytes.as_slice(), HEADER_SIZE);
        let (data_chunk_offset, is_valid) = match found {
            Some(o) => {
                let header_ok = tag_matches(bytes.as_slice(), 0, [0x52u8, 0x49u8, 0x46u8, 0x46u8])
                    && file_byte_size as u64 == file_len && tag_matches(
                    bytes.as_slice(),
                    8,
                    [0x57u8, 0x41u8, 0x56u8, 0x45u8],
                ) && tag_matches(bytes.as_slice(), 12, [0x66u8, 0x6Du8, 0x74u8, 0x20u8])
                    && fmt_byte_size == 16 && wav_format == WavFormat::Pcm && channel_count == 2;
                proof {
                    assert([0x52u8, 0x49u8, 0x46u8, 0x46u8]@ =~= seq![0x52u8, 0x49u8, 0x46u8, 0x46u8]);
                    assert([0x57u8, 0x41u8, 0x56u8, 0x45u8]@ =~= seq![0x57u8, 0x41u8, 0x56u8, 0x45u8]);
                    assert([0x66u8, 0x6Du8, 0x74u8, 0x20u8]@ =~= seq![0x66u8, 0x6Du8, 0x74u8, 0x20u8]);
                }
                (o, header_ok)
            },
            None => (bytes.len(), false),
        };
        WavFile {
            is_valid,
            file_name,
            file_byte_size,
            fmt_byte_size,
            wav_format,
            channel_count,
            sample_rate,
            bytes_per_sec,
            bytes_per_sample,
            bits_per_sample,
            current_sample: 0,
            bytes,
            data_chunk_offset,
        }
    }

    /// Samples per second and channel.
    pub fn sample_rate(&self) -> (r: u32)
        ensures
            r == self.sample_rate,
    {
        self.sample_rate
    }

    /// Interleaved channels per frame.
    pub fn channel_count(&self) -> (r: u16)
        ensures
            r == self.channel_count,
    {
        self.channel_count
    }

    /// The sample under the cursor, moving the cursor past it; `None`, with
    /// the cursor kept, once the data runs out.
    pub fn next_sample(&mut self) -> (r: Option<i16>)
        ensures
            ({
                let at = old(self).data_chunk_offset + 2 * old(self).current_sample;
                if at + 1 < old(self).bytes@.len() {
                    &&& r == Some(le_i16(old(self).bytes@, at) as i16)
                    &&& final(self).current_sample == old(self).current_sample + 1
                } else {
                    &&& r is None
                    &&& final(self).current_sample == old(self).current_sample
                }
            }),
            final(self).bytes == old(self).bytes,
            final(self).data_chunk_offset == old(self).data_chunk_offset,
    {
        let at: u128 = self.data_chunk_offset as u128 + 2 * self.current_sample as u128;
        if at + 1 < self.bytes.len() as u128 {
            let sample = read_i16_value(self.bytes.as_slice(), at as usize);
            self.current_sample = self.current_sample + 1;
            Some(sample)
        } else {
            None
        }
    }

    /// Moves the cursor back to the first sample.
    pub fn rewind(&mut self)
        ensures
            final(self).current_sample == 0,
            final(self).bytes == old(self).bytes,
            final(self).data_chunk_offset == old(self).data_chunk_offset,
    {
        self.current_sample = 0;
    }
}

/// Walks the chunks from `start` to the first "data" chunk.
fn find_data_chunk(s: &[u8], start: usize) -> (r: Option<usize>)
    ensures
        r matches Some(o) ==> data_offset_from(s@, start as int) == Some(o as int),
        r is None ==> data_offset_from(s@, start as int) is None,
    decreases s@.len() - start,
{
    if start > s.len() || s.len() - start < 8 {
        return None;
    }
    if tag_matches(s, start, [0x64u8, 0x61u8, 0x74u8, 0x61u8]) {
        proof {
            assert([0x64u8, 0x61u8, 0x74u8, 0x61u8]@ =~= seq![0x64u8, 0x61u8, 0x74u8, 0x61u8]);
        }
        return Some(start + 8);
    }
    proof {
        assert([0x64u8, 0x61u8, 0x74u8, 0x61u8]@ =~= seq![0x64u8, 0x61u8, 0x74u8, 0x61u8]);
    }
    let size = read_u32_value(s, start + 4);
    if size as usize > s.len() - start - 8 {
        proof {
            assert(data_offset_from(s@, start + 8 + size) == None::<int>);
        }
        return None;
    }
    find_data_chunk(s, start + 8 + size as usize)
}

} // verus!
