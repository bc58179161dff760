//! The RFC 6455 frame prefix: parsing and serialization of the 2-to-14-byte
//! header that precedes every frame's payload.
//!
//! Parsing is purely syntactic: reserved bits, unknown opcodes and oversized
//! lengths are passed through here and rejected by the codec layer.

use vstd::prelude::*;

use crate::mask::Mask;

verus! {

/// The parsed frame prefix.
///
/// `opcode` is the raw 4-bit wire value (0 means continuation), `rsv` the
/// three reserved bits, and `data_len` the advertised payload length.
#[derive(Clone, Copy, Debug)]
pub struct FrameHeader {
    pub fin: bool,
    pub rsv: u8,
    pub opcode: u8,
    pub mask: Option<Mask>,
    pub data_len: u64,
}

impl FrameHeader {
    /// A header that the serializer can emit: the reserved bits and the
    /// opcode fit their 3- and 4-bit fields.
    pub open spec fn wf(self) -> bool {
        self.rsv < 8 && self.opcode < 16
    }
}

/// First header byte: fin bit, reserved bits, opcode.
pub open spec fn spec_first_byte(h: FrameHeader) -> u8 {
    (if h.fin {
        0x80u8
    } else {
        0u8
    }) | (h.rsv << 4) | h.opcode
}

/// The 7-bit length marker: the length itself up to 125, else 126 or 127
/// to announce a 16- or 64-bit extended length.
pub open spec fn spec_len_marker(data_len: u64) -> u8 {
    if data_len <= 125 {
        data_len as u8
    } else if data_len <= 0xFFFF {
        126u8
    } else {
        127u8
    }
}

/// Second header byte: mask-present bit and length marker.
pub open spec fn spec_second_byte(h: FrameHeader) -> u8 {
    (if h.mask is Some {
        0x80u8
    } else {
        0u8
    }) | spec_len_marker(h.data_len)
}

/// The extended-length bytes: none, two or eight big-endian bytes,
/// whichever is the shortest sufficient form.
pub open spec fn spec_len_ext_bytes(data_len: u64) -> Seq<u8> {
    if data_len <= 125 {
        seq![]
    } else if data_len <= 0xFFFF {
        seq![(data_len >> 8) as u8, data_len as u8]
    } else {
        seq![
            (data_len >> 56) as u8,
            (data_len >> 48) as u8,
            (data_len >> 40) as u8,
            (data_len >> 32) as u8,
            (data_len >> 24) as u8,
            (data_len >> 16) as u8,
            (data_len >> 8) as u8,
            data_len as u8,
        ]
    }
}

/// The mask key bytes, if a mask is present.
pub open spec fn spec_mask_bytes(mask: Option<Mask>) -> Seq<u8> {
    match mask {
        Some(m) => m.spec_bytes(),
        None => seq![],
    }
}

/// The serialized header: the minimal representation RFC 6455 prescribes.
pub open spec fn spec_header_bytes(h: FrameHeader) -> Seq<u8> {
    seq![spec_first_byte(h), spec_second_byte(h)] + spec_len_ext_bytes(h.data_len)
        + spec_mask_bytes(h.mask)
}

/// The number of extended-length bytes a length marker announces.
pub open spec fn spec_ext_len(marker: u8) -> int {
    if marker <= 125 {
        0int
    } else if marker == 126 {
        2int
    } else {
        8int
    }
}

/// The header parsed from the front of `s`, with the number of bytes it
/// occupies; `None` when `s` is too short to hold the whole prefix.
pub open spec fn spec_parse_header(s: Seq<u8>) -> Option<(FrameHeader, int)> {
    if s.len() < 2 {
        None
    } else {
        let b0 = s[0];
        let b1 = s[1];
        let has_mask = b1 & 0x80 != 0;
        let marker = b1 & 0x7F;
        let ext = spec_ext_len(marker);
        let total = 2 + ext + (if has_mask {
            4int
        } else {
            0int
        });
        if s.len() < total {
            None
        } else {
            let data_len: u64 = if marker <= 125 {
                marker as u64
            } else if marker == 126 {
                ((s[2] as u64) << 8) | (s[3] as u64)
            } else {
                ((s[2] as u64) << 56) | ((s[3] as u64) << 48) | ((s[4] as u64) << 40) | ((
                s[5] as u64) << 32) | ((s[6] as u64) << 24) | ((s[7] as u64) << 16) | ((
                s[8] as u64) << 8) | (s[9] as u64)
            };
            let mask = if has_mask {
                Some(
                    Mask {
                        k0: s[2 + ext],
                        k1: s[3 + ext],
                        k2: s[4 + ext],
                        k3: s[5 + ext],
                    },
                )
            } else {
                None
            };
            Some(
                (
                    FrameHeader {
                        fin: b0 & 0x80 != 0,
                        rsv: (b0 >> 4) & 7,
                        opcode: b0 & 0xF,
                        mask,
                        data_len,
                    },
                    total,
                ),
            )
        }
    }
}

/// A parsed header occupies between 2 and 14 bytes of the source, its
/// reserved bits and opcode fit their fields, and the source holds it whole.
pub proof fn lemma_parse_header_bounds(s: Seq<u8>)
    requires
        spec_parse_header(s) is Some,
    ensures
        2 <= spec_parse_header(s).unwrap().1 <= 14,
        spec_parse_header(s).unwrap().1 <= s.len(),
        spec_parse_header(s).unwrap().0.wf(),
{
    let b0 = s[0];
    assert((b0 >> 4) & 7 < 8 && b0 & 0xF < 16) by (bit_vector);
}

/// Parsing looks only at the header's own bytes: appending anything to a
/// source that already holds a whole header parses the same.
pub proof fn lemma_parse_header_extend(s: Seq<u8>, t: Seq<u8>)
    requires
        spec_parse_header(s) is Some,
    ensures
        spec_parse_header(s + t) == spec_parse_header(s),
{
    let st = s + t;
    assert(st.len() >= s.len());
    assert(forall|i: int| 0 <= i < s.len() ==> st[i] == s[i]);
}

/// Serialization and parsing are inverse: a well-formed header written in
/// its minimal form, followed by anything, parses back to itself, consuming
/// exactly its own bytes.
pub proof fn lemma_header_roundtrip(h: FrameHeader, rest: Seq<u8>)
    requires
        h.wf(),
    ensures
        spec_parse_header(spec_header_bytes(h) + rest) == Some(
            (h, spec_header_bytes(h).len() as int),
        ),
{
    let hb = spec_header_bytes(h);
    let s = hb + rest;
    let fin_bit: u8 = if h.fin {
        0x80u8
    } else {
        0u8
    };
    let rsv = h.rsv;
    let op = h.opcode;
    let b0 = spec_first_byte(h);
    assert(b0 == fin_bit | (rsv << 4) | op);
    assert((fin_bit == 0x80 || fin_bit == 0) && rsv < 8 && op < 16 ==> ((fin_bit | (rsv << 4)
        | op) & 0x80 != 0 <==> fin_bit == 0x80) && ((fin_bit | (rsv << 4) | op) >> 4) & 7 == rsv
        && (fin_bit | (rsv << 4) | op) & 0xF == op) by (bit_vector);
    let mask_bit: u8 = if h.mask is Some {
        0x80u8
    } else {
        0u8
    };
    let dl = h.data_len;
    let marker = spec_len_marker(dl);
    assert(dl <= 125 ==> dl as u8 <= 125) by (bit_vector);
    assert(marker <= 127);
    let b1 = spec_second_byte(h);
    assert(b1 == mask_bit | marker);
    assert((mask_bit == 0x80 || mask_bit == 0) && marker <= 127 ==> ((mask_bit | marker) & 0x80
        != 0 <==> mask_bit == 0x80) && (mask_bit | marker) & 0x7F == marker) by (bit_vector);
    let ext = spec_len_ext_bytes(dl);
    let mb = spec_mask_bytes(h.mask);
    assert(hb.len() == 2 + ext.len() + mb.len());
    assert(s[0] == b0 && s[1] == b1);
    assert(spec_ext_len(marker) == ext.len());
    let total = 2 + ext.len() + (if h.mask is Some {
        4int
    } else {
        0int
    });
    assert(s.len() >= total);
    // The advertised length reads back to itself in each of the three forms.
    if dl <= 125 {
        assert(dl <= 125 ==> (dl as u8) as u64 == dl) by (bit_vector);
    } else if dl <= 0xFFFF {
        assert(s[2] == (dl >> 8) as u8 && s[3] == dl as u8);
        assert(126 <= dl <= 0xFFFF ==> ((((dl >> 8) as u8) as u64) << 8) | ((dl as u8) as u64)
            == dl && !((dl as u8) <= 125 && (dl >> 8) as u8 == 0)) by (bit_vector);
    } else {
        assert(s[2] == (dl >> 56) as u8 && s[3] == (dl >> 48) as u8 && s[4] == (dl >> 40) as u8
            && s[5] == (dl >> 32) as u8 && s[6] == (dl >> 24) as u8 && s[7] == (dl >> 16) as u8
            && s[8] == (dl >> 8) as u8 && s[9] == dl as u8);
        assert((((dl >> 56) as u8 as u64) << 56) | (((dl >> 48) as u8 as u64) << 48) | (((dl
            >> 40) as u8 as u64) << 40) | (((dl >> 32) as u8 as u64) << 32) | (((dl
            >> 24) as u8 as u64) << 24) | (((dl >> 16) as u8 as u64) << 16) | (((dl
            >> 8) as u8 as u64) << 8) | ((dl as u8) as u64) == dl) by (bit_vector);
    }
    match h.mask {
        Some(m) => {
            let el = ext.len() as int;
            assert(s[2 + el] == m.k0 && s[3 + el] == m.k1 && s[4 + el] == m.k2 && s[5 + el]
                == m.k3);
            assert(spec_parse_header(s).unwrap().0.mask == Some(m));
        },
        None => {},
    }
    assert(spec_parse_header(s).unwrap().0 == h);
    assert(spec_parse_header(s).unwrap().1 == hb.len());
}

impl FrameHeader {
    /// Parses the frame prefix from the front of `src` without consuming
    /// it; `None` means more bytes are needed before the prefix is whole.
    pub fn parse_slice(src: &Vec<u8>) -> (r: Option<(FrameHeader, usize)>)
        ensures
            r is Some <==> spec_parse_header(src@) is Some,
            r matches Some((h, n)) ==> spec_parse_header(src@) == Some((h, n as int)),
    {
        if src.len() < 2 {
            return None;
        }
        let b0 = src[0];
        let b1 = src[1];
        let has_mask = b1 & 0x80 != 0;
        let marker = b1 & 0x7F;
        let ext: usize = if marker <= 125 {
            0
        } else if marker == 126 {
            2
        } else {
            8
        };
        let total: usize = 2 + ext + (if has_mask {
            4
        } else {
            0
        });
        if src.len() < total {
            return None;
        }
        let data_len: u64 = if marker <= 125 {
            marker as u64
        } else if marker == 126 {
            ((src[2] as u64) << 8) | (src[3] as u64)
        } else {
            ((src[2] as u64) << 56) | ((src[3] as u64) << 48) | ((src[4] as u64) << 40) | ((
            src[5] as u64) << 32) | ((src[6] as u64) << 24) | ((src[7] as u64) << 16) | ((
            src[8] as u64) << 8) | (src[9] as u64)
        };
        let mask = if has_mask {
            Some(
                Mask {
                    k0: src[2 + ext],
                    k1: src[3 + ext],
                    k2: src[4 + ext],
                    k3: src[5 + ext],
                },
            )
        } else {
            None
        };
        Some(
            (
                FrameHeader {
                    fin: b0 & 0x80 != 0,
                    rsv: (b0 >> 4) & 7,
                    opcode: b0 & 0xF,
                    mask,
                    data_len,
                },
                total,
            ),
        )
    }

    /// Serializes the header in its minimal form onto the end of `dst`.
    pub fn write_to_bytes(&self, dst: &mut Vec<u8>)
        requires
            self.wf(),
        ensures
            final(dst)@ == old(dst)@ + spec_header_bytes(*self),
    {
        let fin_bit: u8 = if self.fin {
            0x80
        } else {
            0
        };
        let rsv = self.rsv;
        assert(rsv < 8 ==> (rsv << 4) as u8 <= 0x70) by (bit_vector);
        let b0: u8 = fin_bit | (rsv << 4) | self.opcode;
        let mask_bit: u8 = if self.mask.is_some() {
            0x80
        } else {
            0
        };
        let marker: u8 = if self.data_len <= 125 {
            self.data_len as u8
        } else if self.data_len <= 0xFFFF {
            126
        } else {
            127
        };
        dst.push(b0);
        dst.push(mask_bit | marker);
        if self.data_len <= 125 {
        } else if self.data_len <= 0xFFFF {
            dst.push((self.data_len >> 8) as u8);
            dst.push(self.data_len as u8);
        } else {
            dst.push((self.data_len >> 56) as u8);
            dst.push((self.data_len >> 48) as u8);
            dst.push((self.data_len >> 40) as u8);
            dst.push((self.data_len >> 32) as u8);
            dst.push((self.data_len >> 24) as u8);
            dst.push((self.data_len >> 16) as u8);
            dst.push((self.data_len >> 8) as u8);
            dst.push(self.data_len as u8);
        }
        match &self.mask {
            Some(m) => {
                dst.push(m.k0);
                dst.push(m.k1);
                dst.push(m.k2);
                dst.push(m.k3);
            },
            None => {},
        }
        assert(dst@ =~= old(dst)@ + spec_header_bytes(*self));
    }
}

} // verus!
