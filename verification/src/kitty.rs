//! Pictures in the terminal through the kitty graphics protocol.
use vstd::prelude::*;
use base64::Engine;
use image::AnimationDecoder;
use crate::config::ImageConfig;
use crate::text::{decimal, push_decimal, strs, to_chars, push_chars, slice_chars};

verus! {

/// What `base64::engine::general_purpose::STANDARD.encode` makes of `bytes`.
pub uninterp spec fn base64_standard(bytes: Seq<u8>) -> Seq<char>;

/// Encodes `bytes` with `base64::engine::general_purpose::STANDARD`
/// (standard alphabet, with padding). Its result is named, and its length is
/// the one `base64::encoded_len` gives with padding: four characters per
/// started group of three bytes. `encode` panics only where that length
/// overflows `usize`, which no slice, at most `isize::MAX` bytes long, reaches.
#[verifier::external_body]
fn encode_base64(bytes: &[u8]) -> (s: String)
    ensures
        s@ == base64_standard(bytes@),
        s@.len() == 4 * ((bytes@.len() + 2) / 3),
{
    base64::engine::general_purpose::STANDARD.encode(bytes)
}

/// What `gif_to_png` makes of the bytes of a file: the first frame of the GIF
/// they hold, as PNG bytes, or `None` where decoding or encoding fails.
pub uninterp spec fn gif_png(raw: Seq<u8>) -> Option<Seq<u8>>;

/// Decodes the first frame of a GIF with `image::codecs::gif::GifDecoder`
/// and encodes it as PNG with `image::DynamicImage::write_to`. The result is
/// named; nothing more of it is stated.
#[verifier::external_body]
pub(crate) fn gif_to_png(raw: &[u8]) -> (png: Option<Vec<u8>>)
    ensures
        match png {
            Some(p) => gif_png(raw@) == Some(p@),
            None => gif_png(raw@) is None,
        },
{
    let decoder = image::codecs::gif::GifDecoder::new(std::io::Cursor::new(raw)).ok()?;
    let frame = decoder.into_frames().next()?.ok()?;
    let mut png_bytes: Vec<u8> = Vec::new();
    image::DynamicImage::ImageRgba8(frame.into_buffer())
        .write_to(&mut std::io::Cursor::new(&mut png_bytes), image::ImageFormat::Png)
        .ok()?;
    Some(png_bytes)
}

/// The number of 4096-character chunks that `n` characters make.
pub open spec fn chunk_count(n: nat) -> nat {
    (n + 4095) / 4096
}

/// Chunk `i` of `s`: characters `4096 * i` up to the next 4096, or the end.
pub open spec fn chunk_at(s: Seq<char>, i: int) -> Seq<char> {
    let start = 4096 * i;
    let end = if start + 4096 < s.len() { start + 4096 } else { s.len() as int };
    s.subrange(start, end)
}

/// The `m` flag of a chunk: `1` where more chunks follow, else `0`.
pub open spec fn more_flag(more: bool) -> Seq<char> {
    if more {
        "1"@
    } else {
        "0"@
    }
}

/// The escape sequence that carries chunk `i` of the payload `s`; the first
/// one also says how to show the picture.
pub open spec fn kitty_frame(s: Seq<char>, i: int, cols: u32, rows: u32) -> Seq<char> {
    let more = more_flag(i + 1 < chunk_count(s.len()));
    if i == 0 {
        "\x1b_Ga=T,t=d,f=100,c="@ + decimal(cols as nat) + ",r="@ + decimal(rows as nat) + ",q=2,m="@
            + more + ";"@ + chunk_at(s, 0) + "\x1b\\"@
    } else {
        "\x1b_Gm="@ + more + ";"@ + chunk_at(s, i) + "\x1b\\"@
    }
}

/// The escape sequences of the first `k` chunks of `s`.
pub open spec fn kitty_frames(s: Seq<char>, cols: u32, rows: u32, k: nat) -> Seq<char>
    decreases k,
{
    if k == 0 {
        seq![]
    } else {
        kitty_frames(s, cols, rows, (k - 1) as nat) + kitty_frame(s, k - 1, cols, rows)
    }
}

/// All escape sequences that carry the payload `s`.
pub open spec fn kitty_text(s: Seq<char>, cols: u32, rows: u32) -> Seq<char> {
    kitty_frames(s, cols, rows, chunk_count(s.len()))
}

/// The kitty escape sequences that transmit and show an already encoded
/// (base64) PNG payload, in chunks of at most 4096 characters.
pub fn kitty_frames_of(b64: &str, cols: u32, rows: u32) -> (out: String)
    ensures
        out@ == kitty_text(b64@, cols, rows),
{
    let v = to_chars(b64);
    let len = v.len();
    let total: usize = len / 4096 + if len % 4096 == 0 { 0 } else { 1 };
    assert(total == chunk_count(len as nat));
    let mut out = String::new();
    let mut i: usize = 0;
    while i < total
        invariant
            v@ == b64@,
            len == v.len(),
            total == chunk_count(len as nat),
            i <= total,
            out@ == kitty_frames(b64@, cols, rows, i as nat),
        decreases total - i,
    {
        assert(4096 * i < len);
        let start = 4096 * i;
        let end = if len - start > 4096 { start + 4096 } else { len };
        let chunk = slice_chars(&v, start, end);
        assert(chunk@ == chunk_at(b64@, i as int));
        let more = i + 1 < total;
        let ghost before = out@;
        if i == 0 {
            out.append("\x1b_Ga=T,t=d,f=100,c=");
            push_decimal(&mut out, cols as u64);
            out.append(",r=");
            push_decimal(&mut out, rows as u64);
            out.append(",q=2,m=");
        } else {
            out.append("\x1b_Gm=");
        }
        if more {
            out.append("1");
        } else {
            out.append("0");
        }
        out.append(";");
        push_chars(&mut out, &chunk);
        out.append("\x1b\\");
        assert(out@ =~= before + kitty_frame(b64@, i as int, cols, rows));
        i = i + 1;
    }
    out
}

/// The kitty escape sequences that transmit and show a PNG picture, the
/// bytes base64-encoded and sent in chunks of at most 4096 characters.
/// The payload is `4 * ceil(n / 3)` characters long for `n` bytes, and the
/// sequences are empty exactly when there are no bytes.
pub fn kitty_chunk(png_bytes: &[u8], cols: u32, rows: u32) -> (out: String)
    ensures
        out@ == kitty_text(base64_standard(png_bytes@), cols, rows),
        base64_standard(png_bytes@).len() == 4 * ((png_bytes@.len() + 2) / 3),
        out@.len() == 0 <==> png_bytes@.len() == 0,
{
    let b64 = encode_base64(png_bytes);
    proof {
        lemma_kitty_text_empty(b64@, cols, rows);
    }
    kitty_frames_of(b64.as_str(), cols, rows)
}

/// The sequences that carry a payload are empty exactly when the payload is.
pub proof fn lemma_kitty_text_empty(s: Seq<char>, cols: u32, rows: u32)
    ensures
        kitty_text(s, cols, rows).len() == 0 <==> s.len() == 0,
{
    let k = chunk_count(s.len());
    if s.len() > 0 {
        assert(k >= 1);
        assert(4096 * (k - 1) < s.len());
        assert(chunk_at(s, k - 1).len() > 0);
        assert(kitty_frame(s, k - 1, cols, rows).len() >= chunk_at(s, k - 1).len());
        assert(kitty_text(s, cols, rows) == kitty_frames(s, cols, rows, (k - 1) as nat) + kitty_frame(
            s,
            k - 1,
            cols,
            rows,
        ));
    } else {
        assert(k == 0);
    }
}

/// The first `k` chunks of `s`, one after another.
pub open spec fn chunks_joined(s: Seq<char>, k: nat) -> Seq<char>
    decreases k,
{
    if k == 0 {
        seq![]
    } else {
        chunks_joined(s, (k - 1) as nat) + chunk_at(s, k - 1)
    }
}

proof fn lemma_chunks_prefix(s: Seq<char>, k: nat)
    requires
        k <= chunk_count(s.len()),
    ensures
        chunks_joined(s, k) == s.take(if 4096 * k < s.len() { (4096 * k) as int } else { s.len() as int }),
    decreases k,
{
    if k == 0 {
        assert(s.take(0) =~= Seq::<char>::empty());
    } else {
        lemma_chunks_prefix(s, (k - 1) as nat);
        assert(4096 * (k - 1) < s.len());
        assert(chunks_joined(s, k) =~= s.take(if 4096 * k < s.len() { (4096 * k) as int } else { s.len() as int }));
    }
}

/// The payload is cut without loss: the chunks, joined in order, give it
/// back, and each chunk holds between 1 and 4096 characters.
pub proof fn law_chunks_reassemble(s: Seq<char>)
    ensures
        chunks_joined(s, chunk_count(s.len())) == s,
        forall|i: int|
            0 <= i < chunk_count(s.len()) ==> 0 < #[trigger] chunk_at(s, i).len() <= 4096,
{
    lemma_chunks_prefix(s, chunk_count(s.len()));
    assert(s.take(s.len() as int) =~= s);
    assert forall|i: int| 0 <= i < chunk_count(s.len()) implies 0 < #[trigger] chunk_at(s, i).len()
        <= 4096 by {
        assert(4096 * i < s.len());
    }
}

/// Where the information column starts: right of the picture and the gap.
pub open spec fn column_offset(img: ImageConfig) -> nat {
    (img.cols * 2 + img.gap) as nat
}

/// How many rows the picture layout spans: the picture's rows, or the number
/// of information lines (taken as a `u32`) where that is more.
pub open spec fn kitty_row_count(n_lines: nat, img: ImageConfig) -> nat {
    let n = n_lines as u32;
    if img.rows < n {
        n as nat
    } else {
        img.rows as nat
    }
}

/// Row `i` beside the picture: save the cursor, move right past the
/// picture, write line `i` if there is one, restore the cursor, go down.
pub open spec fn kitty_row(lines: Seq<Seq<char>>, i: int, offset: nat) -> Seq<char> {
    "\x1b[s"@ + "\x1b["@ + decimal(offset) + "C"@ + (if i < lines.len() { lines[i] } else { seq![] })
        + "\x1b[u"@ + "\x1b[1B"@
}

/// The first `k` rows beside the picture.
pub open spec fn kitty_rows(lines: Seq<Seq<char>>, offset: nat, k: nat) -> Seq<char>
    decreases k,
{
    if k == 0 {
        seq![]
    } else {
        kitty_rows(lines, offset, (k - 1) as nat) + kitty_row(lines, k - 1, offset)
    }
}

/// The picture layout: the picture drawn with the cursor saved and
/// restored, then the information lines beside it, then a newline.
pub open spec fn kitty_layout(png: Seq<u8>, lines: Seq<Seq<char>>, img: ImageConfig) -> Seq<char> {
    "\x1b[s"@ + kitty_text(base64_standard(png), img.cols, img.rows) + "\x1b[u"@
        + kitty_rows(lines, column_offset(img), kitty_row_count(lines.len(), img)) + "\n"@
}

/// Appends the picture and, beside it, the information lines.
pub fn render_kitty(output: &mut String, png_bytes: &[u8], lines: &[String], img: &ImageConfig)
    requires
        kitty_row_count(lines@.len(), *img) > 0 ==> img.cols * 2 + img.gap <= u32::MAX,
    ensures
        final(output)@ == old(output)@ + kitty_layout(png_bytes@, strs(lines@), *img),
{
    output.append("\x1b[s");
    let k = kitty_chunk(png_bytes, img.cols, img.rows);
    output.append(k.as_str());
    output.append("\x1b[u");
    let n = lines.len() as u32;
    let total = (if img.rows < n { n } else { img.rows }) as usize;
    let offset: u32 = if total > 0 { img.cols * 2 + img.gap } else { 0 };
    let ghost head = output@;
    let ghost ls = strs(lines@);
    for i in 0..total
        invariant
            total > 0 ==> offset == column_offset(*img),
            ls == strs(lines@),
            output@ == head + kitty_rows(ls, offset as nat, i as nat),
    {
        let ghost before = output@;
        output.append("\x1b[s");
        output.append("\x1b[");
        push_decimal(output, offset as u64);
        output.append("C");
        if i < lines.len() {
            output.append(lines[i].as_str());
        }
        output.append("\x1b[u");
        output.append("\x1b[1B");
        assert(output@ =~= before + kitty_row(ls, i as int, offset as nat));
    }
    output.append("\n");
    assert(output@ =~= old(output)@ + kitty_layout(png_bytes@, strs(lines@), *img));
}

} // verus!
