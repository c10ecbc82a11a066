use std::fmt;

use mscfb::hexdump::HexDump;

/// Shows a dump as the tool does: the short form, or a structure of lines.
struct Dump(HexDump);

struct Raw<'a>(&'a str);

impl fmt::Debug for Raw<'_> {
    fn fmt(&self, formatter: &mut fmt::Formatter<'_>) -> fmt::Result {
        formatter.write_str(self.0)
    }
}

impl fmt::Debug for Dump {
    fn fmt(&self, formatter: &mut fmt::Formatter<'_>) -> fmt::Result {
        if !formatter.alternate() {
            return formatter.write_str(&self.0.compact_text());
        }
        let title = self.0.title();
        let lines: Vec<(String, String)> = (0..self.0.chunk_count())
            .map(|index| (self.0.label(index), self.0.chunk_text(index)))
            .collect();
        let mut object = formatter.debug_struct(&title);
        for (label, text) in &lines {
            object.field(label, &Raw(text));
        }
        object.finish()
    }
}

#[test]
fn hexdump_indent() {
    #[allow(unused)]
    #[derive(Debug)]
    struct Dada {
        dada: usize,
        fafa: Dump,
        gaga: bool,
    }

    let value = Dada {
        dada: 1337,
        gaga: false,
        fafa: Dump(HexDump::new(
            512, // Offset
            [
                0x00, 0x01, 0x02, 0x03, 0x04, 0x05, 0x06, 0x07, //
                0x08, 0x09, 0x0A, 0x0B, 0x0C, 0x0D, 0x0E, 0x0F, //
                b'C', b'o', b'u', b'C', b'o', b'u', b'u', b'u', //
                b'u', b'u', b'u', b'U', b'u', b'U', b'U', b'U', //
                0x42, 0x69, 0x13, 0x37, b'!',
            ]
            .into(),
        )),
    };

    assert_eq!(
        [
            "Dada {",
            "    dada: 1337,",
            "    fafa: [37 bytes] {",
            "        00000200: 00 01 02 03 04 05 06 07 08 09 0A 0B 0C 0D 0E 0F ................ ,",
            "        00000210: 43 6F 75 43 6F 75 75 75 75 75 75 55 75 55 55 55 CouCouuuuuuUuUUU ,",
            "        00000220: 42 69 13 37 21                                  Bi.7! ,",
            "    },",
            "    gaga: false,",
            "}",
        ]
        .join("\n"),
        format!("{value:#?}"),
    );
}

#[test]
fn short_dump_lists_bytes() {
    let dump = HexDump::new(0, vec![0x00, 0xAB, 0x7F]);
    assert_eq!(dump.compact_text(), "[00, AB, 7F]");
    assert_eq!(HexDump::new(0, vec![]).compact_text(), "[]");
}

#[test]
fn single_short_chunk_is_not_padded() {
    let dump = HexDump::new(0, b"Hi \xFF".to_vec());
    assert_eq!(dump.chunk_count(), 1);
    assert_eq!(dump.title(), "[4 bytes]");
    assert_eq!(dump.label(0), "00000000");
    assert_eq!(dump.chunk_text(0), "48 69 20 FF Hi.. ");
}

#[test]
fn labels_grow_past_eight_digits() {
    let dump = HexDump::new(0xFFFF_FFF0, vec![1; 17]);
    assert_eq!(dump.chunk_count(), 2);
    assert_eq!(dump.label(0), "FFFFFFF0");
    assert_eq!(dump.label(1), "100000000");
    assert_eq!(
        dump.chunk_text(1),
        format!("01 {}. ", " ".repeat(45))
    );
}

#[test]
fn empty_dump_has_no_lines() {
    let dump = HexDump::new(7, Vec::new());
    assert_eq!(dump.chunk_count(), 0);
    assert_eq!(dump.title(), "[0 bytes]");
    assert!(dump.bytes().is_empty());
}
