//! What holds of the packed and the written form of handles: which texts are
//! read, and when reading and writing undo each other.

use crate::handle::{
    accessibility_code, accessibility_of, bytes_of_words, decode_text, encode_text, field_word,
    field_words, metadata_of, object_code, object_of, pack, unpack, words_of_bytes, zeros,
    ContentView, DecodeError, FormatError, HandleError, HandleView, NonliteralView,
    CANONICAL_FLAG, LITERAL_FLAG, LITERAL_SIZE_MASK, OBJECT_MASK,
};
use crate::text::{
    free_of, hex_text, is_canonical_hex, join, lemma_hex_text, lemma_hex_text_of_canonical,
    lemma_join_split, lemma_parse_hex_text, lemma_split_join, numeral_value, parse_unsigned,
    split,
};
use vstd::bytes::{
    lemma_auto_spec_u64_to_from_le_bytes, spec_u64_from_le_bytes, spec_u64_to_le_bytes,
};
use vstd::prelude::*;

verus! {

/// Bits of the last byte that no handle uses unless it is a literal.
pub const UNUSED_MASK: u8 = 0x18;

/// The 32 bytes hold nothing that reading them drops: in a handle that is no
/// literal the two unused bits of the last byte are clear, and in a local
/// one the bytes beside the id and the size are zero.
pub open spec fn is_tight(buf: Seq<u8>) -> bool {
    let metadata = buf[31];
    metadata & LITERAL_FLAG != 0 || (metadata & UNUSED_MASK == 0 && (metadata & CANONICAL_FLAG != 0
        || (buf.subrange(8, 16) == zeros(8) && buf.subrange(24, 31) == zeros(7))))
}

/// Every field of the text is a canonical hexadecimal numeral.
pub open spec fn is_canonical_text(s: Seq<char>) -> bool {
    forall|i: int| 0 <= i < split(s, '-').len() ==> is_canonical_hex(#[trigger] split(s, '-')[i])
}

/// The 32 bytes that a text of four numerals writes.
pub open spec fn text_bytes(s: Seq<char>) -> Seq<u8> {
    bytes_of_words(field_words(split(s, '-')).unwrap())
}

/// Four words and their 32 little-endian bytes determine each other.
pub proof fn lemma_words_and_bytes(words: Seq<u64>, buf: Seq<u8>)
    ensures
        words.len() == 4 ==> bytes_of_words(words).len() == 32 && words_of_bytes(
            bytes_of_words(words),
        ) == words,
        buf.len() == 32 ==> words_of_bytes(buf).len() == 4 && bytes_of_words(words_of_bytes(buf))
            == buf,
{
    lemma_auto_spec_u64_to_from_le_bytes();
    if words.len() == 4 {
        let b = bytes_of_words(words);
        assert(b.subrange(0, 8) =~= spec_u64_to_le_bytes(words[0]));
        assert(b.subrange(8, 16) =~= spec_u64_to_le_bytes(words[1]));
        assert(b.subrange(16, 24) =~= spec_u64_to_le_bytes(words[2]));
        assert(b.subrange(24, 32) =~= spec_u64_to_le_bytes(words[3]));
        assert(words_of_bytes(b) =~= words);
    }
    if buf.len() == 32 {
        let w = words_of_bytes(buf);
        assert(spec_u64_to_le_bytes(spec_u64_from_le_bytes(buf.subrange(0, 8))) == buf.subrange(
            0,
            8,
        ));
        assert(spec_u64_to_le_bytes(spec_u64_from_le_bytes(buf.subrange(8, 16))) == buf.subrange(
            8,
            16,
        ));
        assert(spec_u64_to_le_bytes(spec_u64_from_le_bytes(buf.subrange(16, 24)))
            == buf.subrange(16, 24));
        assert(spec_u64_to_le_bytes(spec_u64_from_le_bytes(buf.subrange(24, 32)))
            == buf.subrange(24, 32));
        assert(bytes_of_words(w) =~= buf);
    }
}

/// The last byte of a well-formed handle gives back what was put in it.
proof fn lemma_metadata_fields(h: HandleView)
    requires
        h.well_formed(),
    ensures
        accessibility_of(metadata_of(h) >> 6) == Ok::<_, DecodeError>(h.accessibility),
        h.content is Literal ==> metadata_of(h) & LITERAL_FLAG != 0 && (metadata_of(h)
            & LITERAL_SIZE_MASK) as u64 == h.size,
        h.content matches ContentView::Other { object_type, data } ==> metadata_of(h) & LITERAL_FLAG
            == 0 && object_of(metadata_of(h) & OBJECT_MASK) == Ok::<_, DecodeError>(object_type)
            && (metadata_of(h) & CANONICAL_FLAG != 0 <==> data is Canonical),
{
    let a = accessibility_code(h.accessibility);
    let size = h.size;
    match h.content {
        ContentView::Literal(bytes) => {
            assert({
                let m = (a << 6) | 0x20u8 | ((size & 0xff) as u8);
                m >> 6 == a && m & 0x20u8 != 0 && (m & 0x1fu8) as u64 == size
            }) by (bit_vector)
                requires
                    a <= 2,
                    size <= 31,
            ;
        },
        ContentView::Other { object_type, data } => {
            let o = object_code(object_type);
            assert({
                let m = (a << 6) | o | 0x04u8;
                m >> 6 == a && m & 0x20u8 == 0 && m & 0x03u8 == o && m & 0x04u8 != 0
            }) by (bit_vector)
                requires
                    a <= 2,
                    o <= 3,
            ;
            assert({
                let m = (a << 6) | o;
                m >> 6 == a && m & 0x20u8 == 0 && m & 0x03u8 == o && m & 0x04u8 == 0
            }) by (bit_vector)
                requires
                    a <= 2,
                    o <= 3,
            ;
        },
    }
}

/// Packing a well-formed handle gives 32 bytes that hold no more than the
/// handle, and unpacking them gives the handle back.
pub proof fn lemma_unpack_pack(h: HandleView)
    requires
        h.well_formed(),
    ensures
        pack(h).len() == 32,
        unpack(pack(h)) == Ok::<_, DecodeError>(h),
        is_tight(pack(h)),
{
    lemma_auto_spec_u64_to_from_le_bytes();
    lemma_metadata_fields(h);
    let buf = pack(h);
    let m = metadata_of(h);
    match h.content {
        ContentView::Literal(bytes) => {
            assert(buf.subrange(0, 31) =~= bytes);
        },
        ContentView::Other { object_type, data: NonliteralView::Canonical(hash) } => {
            assert(buf.subrange(16, 24) =~= spec_u64_to_le_bytes(h.size));
            assert(buf.subrange(0, 16) + buf.subrange(24, 31) =~= hash);
            assert(m & 0x18u8 == 0) by (bit_vector)
                requires
                    m >> 6 <= 2,
                    m & 0x20u8 == 0,
                    m == ((m >> 6) << 6) | (m & 0x03u8) | 0x04u8,
            ;
        },
        ContentView::Other { object_type, data: NonliteralView::Local(id) } => {
            assert(buf.subrange(16, 24) =~= spec_u64_to_le_bytes(h.size));
            assert(buf.subrange(0, 8) =~= spec_u64_to_le_bytes(id));
            assert(buf.subrange(8, 16) =~= zeros(8));
            assert(buf.subrange(24, 31) =~= zeros(7));
            assert(m & 0x18u8 == 0) by (bit_vector)
                requires
                    m >> 6 <= 2,
                    m & 0x20u8 == 0,
                    m == ((m >> 6) << 6) | (m & 0x03u8),
            ;
        },
    }
}

/// Bytes that hold a handle hold a well-formed one, and packing it gives the
/// same bytes exactly when they are tight.
pub proof fn lemma_pack_unpack(buf: Seq<u8>)
    requires
        buf.len() == 32,
        unpack(buf) is Ok,
    ensures
        unpack(buf).unwrap().well_formed(),
        pack(unpack(buf).unwrap()) == buf <==> is_tight(buf),
{
    lemma_auto_spec_u64_to_from_le_bytes();
    let h = unpack(buf).unwrap();
    let m = buf[31];
    let a = m >> 6;
    assert(a <= 2);
    assert(accessibility_code(h.accessibility) == a);
    assert((m & 0x1fu8) <= 31) by (bit_vector);
    let packed = pack(h);
    let pm = metadata_of(h);
    match h.content {
        ContentView::Literal(bytes) => {
            let size = (m & 0x1fu8) as u64;
            assert(((a << 6) | 0x20u8 | ((size & 0xff) as u8)) == m) by (bit_vector)
                requires
                    a == m >> 6,
                    m & 0x20u8 != 0,
                    size == (m & 0x1fu8) as u64,
            ;
            assert(packed =~= buf);
        },
        ContentView::Other { object_type, data } => {
            let o = m & 0x03u8;
            assert(o <= 3) by (bit_vector)
                requires
                    o == m & 0x03u8,
            ;
            assert(object_code(object_type) == o);
            assert(spec_u64_to_le_bytes(spec_u64_from_le_bytes(buf.subrange(16, 24)))
                == buf.subrange(16, 24));
            assert(packed.len() == 32);
            assert(packed[31] == pm);
            match data {
                NonliteralView::Canonical(hash) => {
                    assert((((a << 6) | o | 0x04u8) == m) <==> (m & 0x18u8 == 0)) by (bit_vector)
                        requires
                            a == m >> 6,
                            o == m & 0x03u8,
                            m & 0x20u8 == 0,
                            m & 0x04u8 != 0,
                    ;
                    if m & 0x18u8 == 0 {
                        assert(packed =~= buf);
                    }
                },
                NonliteralView::Local(id) => {
                    assert((((a << 6) | o) == m) <==> (m & 0x18u8 == 0)) by (bit_vector)
                        requires
                            a == m >> 6,
                            o == m & 0x03u8,
                            m & 0x20u8 == 0,
                            m & 0x04u8 == 0,
                    ;
                    assert(spec_u64_to_le_bytes(spec_u64_from_le_bytes(buf.subrange(0, 8)))
                        == buf.subrange(0, 8));
                    assert(packed.subrange(8, 16) =~= zeros(8));
                    assert(packed.subrange(24, 31) =~= zeros(7));
                    if is_tight(buf) {
                        assert forall|i: int| 0 <= i < 32 implies packed[i] == buf[i] by {
                            if i < 8 {
                                assert(packed[i] == buf.subrange(0, 8)[i]);
                            } else if i < 16 {
                                assert(buf[i] == buf.subrange(8, 16)[i - 8]);
                            } else if i < 24 {
                                assert(packed[i] == buf.subrange(16, 24)[i - 16]);
                            } else if i < 31 {
                                assert(buf[i] == buf.subrange(24, 31)[i - 24]);
                            }
                        }
                        assert(packed =~= buf);
                    }
                },
            }
        },
    }
}

/// A text is read as a handle exactly when it has four fields, each a
/// hexadecimal numeral of at most 64 bits, and the top two bits of the last
/// byte they write are not both set. A field that is no such numeral is a
/// format error whatever the number of fields; otherwise a wrong number of
/// fields is one; otherwise two set top bits are an invalid accessibility.
/// No text fails for its kind of object.
pub proof fn lemma_rejection(s: Seq<char>)
    ensures
        (exists|i: int|
            0 <= i < split(s, '-').len() && parse_unsigned(
                #[trigger] split(s, '-')[i],
                16,
                u64::MAX as int,
            ) is None) <==> decode_text(s) == Err::<HandleView, _>(
            HandleError::Format(FormatError::InvalidField),
        ),
        field_words(split(s, '-')) is Some && split(s, '-').len() != 4 <==> decode_text(s) == Err::<
            HandleView,
            _,
        >(HandleError::Format(FormatError::FieldCount)),
        field_words(split(s, '-')) is Some && split(s, '-').len() == 4 && text_bytes(s)[31] >> 6
            == 3 <==> decode_text(s) == Err::<HandleView, _>(
            HandleError::Decode(DecodeError::InvalidAccessibility),
        ),
        field_words(split(s, '-')) is Some && split(s, '-').len() == 4 && text_bytes(s)[31] >> 6
            != 3 <==> decode_text(s) is Ok,
{
    let fields = split(s, '-');
    if exists|i: int|
        0 <= i < fields.len() && parse_unsigned(#[trigger] fields[i], 16, u64::MAX as int) is None {
        let i = choose|i: int|
            0 <= i < fields.len() && parse_unsigned(#[trigger] fields[i], 16, u64::MAX as int)
                is None;
        assert(field_word(fields[i]) is None);
    } else {
        assert forall|i: int| 0 <= i < fields.len() implies (#[trigger] field_word(
            fields[i],
        )) is Some by {
            assert(parse_unsigned(fields[i], 16, u64::MAX as int) is Some);
        }
    }
    if field_words(fields) is Some && fields.len() == 4 {
        let m = text_bytes(s)[31];
        assert(m >> 6 <= 3) by (bit_vector);
        assert(m & 0x03u8 <= 3) by (bit_vector);
    }
}

/// Writing a well-formed handle and reading the text gives the handle back.
pub proof fn lemma_decode_encode(h: HandleView)
    requires
        h.well_formed(),
    ensures
        decode_text(encode_text(h)) == Ok::<_, HandleError>(h),
        is_canonical_text(encode_text(h)),
{
    lemma_unpack_pack(h);
    let buf = pack(h);
    let words = words_of_bytes(buf);
    lemma_words_and_bytes(words, buf);
    lemma_text_of_words(words);
}

/// The text of four words has their four hexadecimal texts as fields, each
/// canonical, and is read as those words.
proof fn lemma_text_of_words(words: Seq<u64>)
    requires
        words.len() == 4,
    ensures
        ({
            let texts = seq![
                hex_text(words[0] as nat),
                hex_text(words[1] as nat),
                hex_text(words[2] as nat),
                hex_text(words[3] as nat),
            ];
            &&& split(join(texts, '-'), '-') == texts
            &&& field_words(texts) == Some(words)
            &&& is_canonical_text(join(texts, '-'))
        }),
{
    let texts = seq![
        hex_text(words[0] as nat),
        hex_text(words[1] as nat),
        hex_text(words[2] as nat),
        hex_text(words[3] as nat),
    ];
    assert forall|i: int| 0 <= i < 4 implies free_of(#[trigger] texts[i], '-') && field_word(
        texts[i],
    ) == Some(words[i]) && is_canonical_hex(texts[i]) by {
        lemma_hex_text(words[i] as nat);
        lemma_parse_hex_text(words[i] as nat, u64::MAX as int);
    }
    lemma_split_join(texts, '-');
    assert(Seq::new(texts.len(), |i: int| field_word(texts[i]).unwrap()) =~= words);
}

/// Reading a text and writing the handle gives the text back exactly when
/// every field of the text is canonical and the bytes it writes are tight.
pub proof fn lemma_encode_decode(s: Seq<char>)
    requires
        decode_text(s) is Ok,
    ensures
        encode_text(decode_text(s).unwrap()) == s <==> is_canonical_text(s) && is_tight(
            text_bytes(s),
        ),
{
    let fields = split(s, '-');
    let words = field_words(fields).unwrap();
    let buf = bytes_of_words(words);
    let h = decode_text(s).unwrap();
    assert(unpack(buf) == Ok::<_, DecodeError>(h));
    lemma_words_and_bytes(words, buf);
    lemma_pack_unpack(buf);
    let back = words_of_bytes(pack(h));
    lemma_unpack_pack(h);
    lemma_words_and_bytes(back, pack(h));
    lemma_text_of_words(back);
    lemma_join_split(s, '-');
    let texts = seq![
        hex_text(back[0] as nat),
        hex_text(back[1] as nat),
        hex_text(back[2] as nat),
        hex_text(back[3] as nat),
    ];
    if is_canonical_text(s) && is_tight(buf) {
        assert(back == words);
        assert forall|i: int| 0 <= i < 4 implies texts[i] == fields[i] by {
            assert(is_canonical_hex(fields[i]));
            lemma_hex_text_of_canonical(fields[i]);
            assert(field_word(fields[i]) is Some);
            assert(words[i] == field_word(fields[i]).unwrap());
            assert(numeral_value(fields[i], 16) == words[i] as int);
        }
        assert(texts =~= fields);
    }
    if encode_text(h) == s {
        assert(texts == fields);
        assert(back =~= words) by {
            assert forall|i: int| 0 <= i < 4 implies back[i] == words[i] by {
                assert(field_word(texts[i]) == Some(back[i]));
            }
        }
        assert(pack(h) == buf);
    }
}

} // verus!
