//! The default avatar of a new account: a mirrored 5x5 block pattern drawn
//! from the account id, coloured from the user name, as an SVG data URL.
use vstd::prelude::*;
use vstd::utf8::encode_utf8;
use vstd::wrapping::u32_specs::{wrapping_add, wrapping_mul};
use crate::numfmt::{dec, dec_chars};
use crate::text::{append_chars, append_str, string_of};

verus! {

/// One step of the pattern's pseudo-random generator.
pub open spec fn lcg(seed: u32) -> u32 {
    wrapping_add(wrapping_mul(seed, 1103515245), 12345)
}

/// The generator state after `k` steps.
pub open spec fn seed_after(seed: u32, k: nat) -> u32
    decreases k,
{
    if k == 0 {
        seed
    } else {
        lcg(seed_after(seed, (k - 1) as nat))
    }
}

/// The `k`-th random bit: bit 16 of the state after step `k + 1`.
pub open spec fn draw(seed: u32, k: nat) -> bool {
    (seed_after(seed, k + 1) / 65536) % 2 == 1
}

/// Whether the cell in `row` and `col` is filled: the three left columns take
/// the random bits row by row, the two right columns mirror them.
pub open spec fn cell_on(seed: u32, row: nat, col: nat) -> bool {
    draw(seed, row * 3 + (if col < 3 { col } else { (4 - col) as nat }))
}

/// The colour hash of the user name's bytes: `h * 31 + b`, wrapping in 32 bits.
pub open spec fn name_hash(bytes: Seq<u8>) -> u32
    decreases bytes.len(),
{
    if bytes.len() == 0 {
        0
    } else {
        wrapping_add(wrapping_mul(name_hash(bytes.drop_last()), 31), bytes.last() as u32)
    }
}

/// The rectangle of one filled cell.
pub open spec fn cell_rect(row: nat, col: nat, hue: Seq<char>) -> Seq<char> {
    "<rect x=\""@ + dec(col * 20) + "\" y=\""@ + dec(row * 20)
        + "\" width=\"20\" height=\"20\" fill=\"hsl("@ + hue + ", 65%, 50)\"/>"@
}

/// The rectangles of the first `c` cells of `row`.
pub open spec fn row_rects(seed: u32, row: nat, c: nat, hue: Seq<char>) -> Seq<char>
    decreases c,
{
    if c == 0 {
        Seq::<char>::empty()
    } else {
        let col = (c - 1) as nat;
        row_rects(seed, row, col, hue) + (if cell_on(seed, row, col) {
            cell_rect(row, col, hue)
        } else {
            Seq::<char>::empty()
        })
    }
}

/// The rectangles of the first `r` rows.
pub open spec fn grid_rects(seed: u32, r: nat, hue: Seq<char>) -> Seq<char>
    decreases r,
{
    if r == 0 {
        Seq::<char>::empty()
    } else {
        grid_rects(seed, (r - 1) as nat, hue) + row_rects(seed, (r - 1) as nat, 5, hue)
    }
}

/// The avatar image: a 100x100 SVG with a light background in the name's hue
/// and the filled cells, 20 units square, in the same hue.
pub open spec fn avatar_svg(username: Seq<char>, user_id: i64) -> Seq<char> {
    let hue = dec((name_hash(encode_utf8(username)) % 360) as nat);
    "<svg xmlns=\"http://www.w3.org/2000/svg\" width=\"100\" height=\"100\" viewBox=\"0 0 100 100\">"@
        + "<rect width=\"100\" height=\"100\" fill=\"hsl("@ + hue + ", 65%, 85%)\"/>"@
        + grid_rects(user_id as u32, 5, hue) + "</svg>"@
}

/// The base64 alphabet of RFC 4648 (standard, not URL-safe).
pub open spec fn b64_char(v: nat) -> char {
    if v < 26 {
        (('A' as nat) + v) as char
    } else if v < 52 {
        (('a' as nat) + (v - 26)) as char
    } else if v < 62 {
        (('0' as nat) + (v - 52)) as char
    } else if v == 62 {
        '+'
    } else {
        '/'
    }
}

/// Standard base64 with `=` padding: each three bytes become four characters.
pub open spec fn base64_std(d: Seq<u8>) -> Seq<char>
    decreases d.len(),
{
    if d.len() == 0 {
        Seq::<char>::empty()
    } else if d.len() == 1 {
        seq![b64_char(d[0] as nat / 4), b64_char((d[0] as nat % 4) * 16), '=', '=']
    } else if d.len() == 2 {
        seq![
            b64_char(d[0] as nat / 4),
            b64_char((d[0] as nat % 4) * 16 + d[1] as nat / 16),
            b64_char((d[1] as nat % 16) * 4),
            '=',
        ]
    } else {
        seq![
            b64_char(d[0] as nat / 4),
            b64_char((d[0] as nat % 4) * 16 + d[1] as nat / 16),
            b64_char((d[1] as nat % 16) * 4 + d[2] as nat / 64),
            b64_char(d[2] as nat % 64),
        ] + base64_std(d.subrange(3, d.len() as int))
    }
}

/// The avatar as a data URL.
pub open spec fn avatar_url(username: Seq<char>, user_id: i64) -> Seq<char> {
    "data:image/svg+xml;base64,"@ + base64_std(encode_utf8(avatar_svg(username, user_id)))
}

/// `base64::engine::general_purpose::STANDARD.encode`: standard alphabet, padded.
#[verifier::external_body]
fn base64_encode(data: &[u8]) -> (r: String)
    ensures
        r@ == base64_std(data@),
{
    base64::Engine::encode(&base64::engine::general_purpose::STANDARD, data)
}

fn colour_hash(bytes: &[u8]) -> (h: u32)
    ensures
        h == name_hash(bytes@),
{
    let mut h: u32 = 0;
    let mut i: usize = 0;
    while i < bytes.len()
        invariant
            i <= bytes.len(),
            h == name_hash(bytes@.take(i as int)),
        decreases bytes.len() - i,
    {
        assert(bytes@.take(i + 1).drop_last() =~= bytes@.take(i as int));
        assert(bytes@.take(i + 1).last() == bytes@[i as int]);
        h = h.wrapping_mul(31).wrapping_add(bytes[i] as u32);
        i += 1;
    }
    assert(bytes@.take(bytes.len() as int) =~= bytes@);
    h
}

fn random_bits(seed: u32) -> (bits: Vec<bool>)
    ensures
        bits.len() == 15,
        forall|k: int| 0 <= k < 15 ==> bits@[k] == draw(seed, k as nat),
{
    let mut bits: Vec<bool> = Vec::new();
    let mut cur = seed;
    let mut k: usize = 0;
    while k < 15
        invariant
            k <= 15,
            bits.len() == k,
            cur == seed_after(seed, k as nat),
            forall|j: int| 0 <= j < k ==> bits@[j] == draw(seed, j as nat),
        decreases 15 - k,
    {
        cur = cur.wrapping_mul(1103515245).wrapping_add(12345);
        assert(cur == seed_after(seed, (k + 1) as nat));
        bits.push((cur / 65536) % 2 == 1);
        k += 1;
    }
    bits
}

/// The avatar image of a new account.
pub fn avatar_svg_text(username: &str, user_id: i64) -> (r: String)
    ensures
        r@ == avatar_svg(username@, user_id),
{
    let seed = user_id as u32;
    let bits = random_bits(seed);
    let hue = dec_chars((colour_hash(username.as_bytes()) % 360) as u128);
    let mut svg: Vec<char> = Vec::new();
    append_str(
        &mut svg,
        "<svg xmlns=\"http://www.w3.org/2000/svg\" width=\"100\" height=\"100\" viewBox=\"0 0 100 100\">",
    );
    append_str(&mut svg, "<rect width=\"100\" height=\"100\" fill=\"hsl(");
    append_chars(&mut svg, &hue);
    append_str(&mut svg, ", 65%, 85%)\"/>");
    let ghost head = svg@;
    let mut row: u64 = 0;
    while row < 5
        invariant
            row <= 5,
            bits.len() == 15,
            forall|k: int| 0 <= k < 15 ==> bits@[k] == draw(seed, k as nat),
            svg@ == head + grid_rects(seed, row as nat, hue@),
        decreases 5 - row,
    {
        let ghost row_start = svg@;
        let mut col: u64 = 0;
        while col < 5
            invariant
                row < 5,
                col <= 5,
                bits.len() == 15,
                forall|k: int| 0 <= k < 15 ==> bits@[k] == draw(seed, k as nat),
                svg@ == row_start + row_rects(seed, row as nat, col as nat, hue@),
            decreases 5 - col,
        {
            let c = if col < 3 {
                col
            } else {
                4 - col
            };
            let idx = (row * 3 + c) as usize;
            if bits[idx] {
                let ghost before = svg@;
                append_str(&mut svg, "<rect x=\"");
                let x = dec_chars((col * 20) as u128);
                append_chars(&mut svg, &x);
                append_str(&mut svg, "\" y=\"");
                let y = dec_chars((row * 20) as u128);
                append_chars(&mut svg, &y);
                append_str(&mut svg, "\" width=\"20\" height=\"20\" fill=\"hsl(");
                append_chars(&mut svg, &hue);
                append_str(&mut svg, ", 65%, 50)\"/>");
                assert(svg@ =~= before + cell_rect(row as nat, col as nat, hue@));
            }
            col += 1;
        }
        row += 1;
    }
    append_str(&mut svg, "</svg>");
    assert(svg@ =~= avatar_svg(username@, user_id));
    string_of(&svg)
}

/// The default avatar of a new account, as a data URL.
pub fn generate_avatar_data_url(username: &str, user_id: i64) -> (r: String)
    ensures
        r@ == avatar_url(username@, user_id),
{
    let svg = avatar_svg_text(username, user_id);
    let encoded = base64_encode(svg.as_str().as_bytes());
    let mut out: Vec<char> = Vec::new();
    append_str(&mut out, "data:image/svg+xml;base64,");
    append_str(&mut out, encoded.as_str());
    string_of(&out)
}

/// The avatar URL given to a new account.
pub fn generate_avatar_url(username: &str, user_id: i64) -> (r: String)
    ensures
        r@ == avatar_url(username@, user_id),
{
    generate_avatar_data_url(username, user_id)
}

/// The avatar pattern is mirrored: in every row, the cell in column `col`
/// is filled exactly when the cell in column `4 - col` is.
pub proof fn law_avatar_mirrored(seed: u32, row: nat, col: nat)
    requires
        col < 5,
    ensures
        cell_on(seed, row, col) == cell_on(seed, row, (4 - col) as nat),
{
}

} // verus!
