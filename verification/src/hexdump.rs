//! Hexadecimal dumps of bytes, sixteen to a line, with their offsets and
//! their printable characters.
use vstd::prelude::*;
use vstd::std_specs::convert::FromSpecImpl;

use crate::text::{digits, pad_left, push_char, push_padded, push_repeat, repeat};

verus! {

/// The number of bytes on a line of a dump.
pub const CHUNK: usize = 16;

/// `b` in hexadecimal, on two digits.
pub open spec fn hex_byte(b: u8) -> Seq<char> {
    pad_left(digits(b as nat, 16), 2, '0')
}

/// The bytes of `c`, each in hexadecimal and followed by a space.
pub open spec fn hex_part(c: Seq<u8>) -> Seq<char>
    decreases c.len(),
{
    if c.len() == 0 {
        seq![]
    } else {
        hex_part(c.drop_last()) + hex_byte(c.last()) + seq![' ']
    }
}

/// How a byte shows in the character column: itself where it is a graphic
/// ASCII character (`!` to `~`), a dot otherwise.
pub open spec fn shown_char(b: u8) -> char {
    if 0x21 <= b <= 0x7E {
        b as char
    } else {
        '.'
    }
}

/// The bytes of `c` as the character column shows them.
pub open spec fn ascii_part(c: Seq<u8>) -> Seq<char>
    decreases c.len(),
{
    if c.len() == 0 {
        seq![]
    } else {
        ascii_part(c.drop_last()).push(shown_char(c.last()))
    }
}

/// The line of chunk `c`, the `index`-th of the dump: its bytes in
/// hexadecimal, then (for a short chunk after the first) the spaces that
/// align the column, then its characters and a space.
pub open spec fn chunk_line(c: Seq<u8>, index: nat) -> Seq<char> {
    let pad = if c.len() < CHUNK && index > 0 {
        repeat(' ', ((CHUNK - c.len()) * 3) as nat)
    } else {
        seq![]
    };
    hex_part(c) + pad + ascii_part(c) + seq![' ']
}

/// The bytes of `s` in hexadecimal, separated by `, `.
pub open spec fn hex_list(s: Seq<u8>) -> Seq<char>
    decreases s.len(),
{
    if s.len() == 0 {
        seq![]
    } else if s.len() == 1 {
        hex_byte(s[0])
    } else {
        hex_list(s.drop_last()) + seq![',', ' '] + hex_byte(s.last())
    }
}

/// The number of lines that `len` bytes take.
pub open spec fn chunk_count_of(len: nat) -> nat {
    (len + CHUNK - 1) as nat / CHUNK as nat
}

/// A dump of `bytes`, whose first byte stands at `offset`.
pub struct HexDump {
    offset: usize,
    bytes: Vec<u8>,
}

impl From<Vec<u8>> for HexDump {
    /// A dump of `bytes` from offset 0.
    fn from(bytes: Vec<u8>) -> (r: HexDump)
        ensures
            r.spec_offset() == 0,
            r.spec_bytes() == bytes@,
    {
        HexDump { offset: 0, bytes }
    }
}

impl FromSpecImpl<Vec<u8>> for HexDump {
    open spec fn obeys_from_spec() -> bool {
        true
    }

    closed spec fn from_spec(bytes: Vec<u8>) -> HexDump {
        HexDump { offset: 0, bytes }
    }
}

impl HexDump {
    /// The offset of the first byte.
    pub closed spec fn spec_offset(&self) -> usize {
        self.offset
    }

    /// The bytes of the dump.
    pub closed spec fn spec_bytes(&self) -> Seq<u8> {
        self.bytes@
    }

    /// The `index`-th chunk of sixteen bytes (the last may be shorter).
    pub open spec fn spec_chunk(&self, index: nat) -> Seq<u8> {
        let start = index * CHUNK;
        let end = if start + CHUNK <= self.spec_bytes().len() {
            start + CHUNK
        } else {
            self.spec_bytes().len() as int
        };
        self.spec_bytes().subrange(start as int, end)
    }

    /// A dump of `bytes` whose first byte stands at `offset`.
    pub fn new(offset: usize, bytes: Vec<u8>) -> (r: Self)
        ensures
            r.spec_offset() == offset,
            r.spec_bytes() == bytes@,
    {
        HexDump { offset, bytes }
    }

    /// The offset of the first byte.
    pub fn offset(&self) -> (r: usize)
        ensures
            r == self.spec_offset(),
    {
        self.offset
    }

    /// The bytes of the dump.
    pub fn bytes(&self) -> (r: &[u8])
        ensures
            r@ == self.spec_bytes(),
    {
        self.bytes.as_slice()
    }

    /// The number of lines of the dump.
    pub fn chunk_count(&self) -> (r: usize)
        ensures
            r == chunk_count_of(self.spec_bytes().len()),
    {
        let len = self.bytes.len();
        len / CHUNK + if len % CHUNK == 0 {
            0
        } else {
            1
        }
    }

    /// The heading of the dump: `[N bytes]`.
    pub fn title(&self) -> (r: String)
        ensures
            r@ == seq!['['] + digits(self.spec_bytes().len(), 10) + seq![
                ' ',
                'b',
                'y',
                't',
                'e',
                's',
                ']',
            ],
    {
        let mut s = String::new();
        push_char(&mut s, '[');
        push_padded(&mut s, self.bytes.len() as u64, 10, 0, ' ');
        push_char(&mut s, ' ');
        push_char(&mut s, 'b');
        push_char(&mut s, 'y');
        push_char(&mut s, 't');
        push_char(&mut s, 'e');
        push_char(&mut s, 's');
        push_char(&mut s, ']');
        assert(s@ =~= seq!['['] + digits(self.spec_bytes().len(), 10) + seq![
            ' ',
            'b',
            'y',
            't',
            'e',
            's',
            ']',
        ]);
        s
    }

    /// The label of line `index`: the offset of its first byte in
    /// hexadecimal, on eight digits at least.
    pub fn label(&self, index: usize) -> (r: String)
        requires
            index * CHUNK + self.spec_offset() <= usize::MAX,
        ensures
            r@ == pad_left(digits((index * CHUNK + self.spec_offset()) as nat, 16), 8, '0'),
    {
        let mut s = String::new();
        let offset = index * CHUNK + self.offset;
        push_padded(&mut s, offset as u64, 16, 8, '0');
        s
    }

    /// Line `index` of the dump (see `chunk_line`).
    pub fn chunk_text(&self, index: usize) -> (r: String)
        requires
            index < chunk_count_of(self.spec_bytes().len()),
        ensures
            r@ == chunk_line(self.spec_chunk(index as nat), index as nat),
    {
        let ghost c = self.spec_chunk(index as nat);
        let len = self.bytes.len();
        assert(index * CHUNK < len) by (nonlinear_arith)
            requires
                index < (len + CHUNK - 1) as nat / CHUNK as nat,
        ;
        let start = index * CHUNK;
        let end = if len - start >= CHUNK {
            start + CHUNK
        } else {
            len
        };
        assert(c =~= self.bytes@.subrange(start as int, end as int));
        let mut s = String::new();
        let mut i = start;
        while i < end
            invariant
                start <= i <= end <= self.bytes@.len(),
                c == self.bytes@.subrange(start as int, end as int),
                s@ == hex_part(c.take(i - start)),
            decreases end - i,
        {
            let b = self.bytes[i];
            push_padded(&mut s, b as u64, 16, 2, '0');
            push_char(&mut s, ' ');
            proof {
                let t = c.take(i + 1 - start);
                assert(t.drop_last() =~= c.take(i - start));
                assert(t.last() == b);
            }
            i = i + 1;
        }
        assert(c.take(end - start) =~= c);
        if end - start < CHUNK && index > 0 {
            push_repeat(&mut s, ' ', (CHUNK - (end - start)) * 3);
        }
        let ghost prefix = s@;
        let mut i = start;
        while i < end
            invariant
                start <= i <= end <= self.bytes@.len(),
                c == self.bytes@.subrange(start as int, end as int),
                s@ == prefix + ascii_part(c.take(i - start)),
            decreases end - i,
        {
            let b = self.bytes[i];
            let shown = if 0x21 <= b && b <= 0x7E {
                b as char
            } else {
                '.'
            };
            push_char(&mut s, shown);
            proof {
                let t = c.take(i + 1 - start);
                assert(t.drop_last() =~= c.take(i - start));
                assert(t.last() == b);
            }
            i = i + 1;
        }
        push_char(&mut s, ' ');
        assert(s@ =~= chunk_line(c, index as nat));
        s
    }

    /// The short form of the dump: its bytes in hexadecimal, separated by
    /// `, `, between brackets.
    pub fn compact_text(&self) -> (r: String)
        ensures
            r@ == seq!['['] + hex_list(self.spec_bytes()) + seq![']'],
    {
        let mut s = String::new();
        push_char(&mut s, '[');
        let ghost prefix = s@;
        let mut i: usize = 0;
        while i < self.bytes.len()
            invariant
                i <= self.bytes@.len(),
                s@ == prefix + hex_list(self.bytes@.take(i as int)),
            decreases self.bytes@.len() - i,
        {
            if i > 0 {
                push_char(&mut s, ',');
                push_char(&mut s, ' ');
            }
            push_padded(&mut s, self.bytes[i] as u64, 16, 2, '0');
            proof {
                let t = self.bytes@.take(i + 1);
                assert(t.drop_last() =~= self.bytes@.take(i as int));
                if i == 0 {
                    assert(self.bytes@.take(0) =~= Seq::<u8>::empty());
                }
            }
            i = i + 1;
            assert(s@ =~= prefix + hex_list(self.bytes@.take(i as int)));
        }
        assert(self.bytes@.take(self.bytes@.len() as int) =~= self.bytes@);
        push_char(&mut s, ']');
        s
    }
}

} // verus!
