//! Shard bodies: UTF-8 text with one JSON object per line, each object a
//! package record augmented with a `file_name` field.
//!
//! The emitter's contracts pin the produced text down exactly through
//! [`record_json`]; the parser accepts general JSON objects (any field
//! order, unknown fields ignored) and is verified not to panic. Shard files
//! on the wire may be zstd-compressed; [`SparseIndexPackage::write`] and
//! [`decode_shard`] handle both directions through the trusted zstd
//! wrappers.

use vstd::prelude::*;

use vstd::utf8::encode_utf8;

use crate::names::{push_char, str_eq, PackageName};
use crate::outside::{char_from_u32, sha256, sha256_of, string_from_utf8, zstd_compress,
    zstd_decompress, zstd_frame_of};
use crate::records::PackageRecord;
use crate::sparse_index::{SparseIndexPackage, SparseIndexRecord};
use crate::yaml::str_chars;

verus! {

/// The compression level shard files are written with.
pub const SHARD_ZSTD_LEVEL: i32 = 19;

/// The lowercase hexadecimal digit with the given value.
pub open spec fn hex_digit(n: int) -> char {
    if n == 0 {
        '0'
    } else if n == 1 {
        '1'
    } else if n == 2 {
        '2'
    } else if n == 3 {
        '3'
    } else if n == 4 {
        '4'
    } else if n == 5 {
        '5'
    } else if n == 6 {
        '6'
    } else if n == 7 {
        '7'
    } else if n == 8 {
        '8'
    } else if n == 9 {
        '9'
    } else if n == 10 {
        'a'
    } else if n == 11 {
        'b'
    } else if n == 12 {
        'c'
    } else if n == 13 {
        'd'
    } else if n == 14 {
        'e'
    } else {
        'f'
    }
}

/// The decimal digit with the given value.
pub open spec fn dec_digit(n: int) -> char {
    hex_digit(if 0 <= n < 10 {
        n
    } else {
        0
    })
}

/// The decimal rendering of a non-negative integer, without leading zeros.
pub open spec fn dec_digits(n: int) -> Seq<char>
    recommends
        n >= 0,
    decreases n,
{
    if n < 10 {
        seq![dec_digit(n)]
    } else {
        dec_digits(n / 10).push(dec_digit(n % 10))
    }
}

/// The JSON escape of one character inside a string literal.
pub open spec fn json_escape_char(c: char) -> Seq<char> {
    if c == '"' {
        "\\\""@
    } else if c == '\\' {
        "\\\\"@
    } else if c == '\n' {
        "\\n"@
    } else if c == '\r' {
        "\\r"@
    } else if c == '\t' {
        "\\t"@
    } else if (c as u32) < 32 {
        "\\u00"@ + seq![
            hex_digit((c as u32) as int / 16),
            hex_digit((c as u32) as int % 16),
        ]
    } else {
        seq![c]
    }
}

/// The JSON escape of a whole character sequence.
pub open spec fn json_escaped(s: Seq<char>) -> Seq<char>
    decreases s.len(),
{
    if s.len() == 0 {
        Seq::<char>::empty()
    } else {
        json_escape_char(s[0]) + json_escaped(s.drop_first())
    }
}

/// The JSON string literal for a character sequence.
pub open spec fn json_string(s: Seq<char>) -> Seq<char> {
    "\""@ + json_escaped(s) + "\""@
}

/// The later elements of a JSON array of strings: a comma before each.
pub open spec fn json_arr_rest(xs: Seq<Seq<char>>) -> Seq<char>
    decreases xs.len(),
{
    if xs.len() == 0 {
        Seq::<char>::empty()
    } else {
        ","@ + json_string(xs[0]) + json_arr_rest(xs.drop_first())
    }
}

/// A JSON array of string literals.
pub open spec fn json_str_array(xs: Seq<Seq<char>>) -> Seq<char> {
    if xs.len() == 0 {
        "[]"@
    } else {
        "["@ + json_string(xs[0]) + json_arr_rest(xs.drop_first()) + "]"@
    }
}

/// An optional string-valued field: the given prefix (comma, key and colon)
/// and the value when present, nothing when absent.
pub open spec fn opt_str_field(prefix: Seq<char>, v: Option<String>) -> Seq<char> {
    match v {
        Some(s) => prefix + json_string(s@),
        None => Seq::<char>::empty(),
    }
}

/// An optional integer-valued field.
pub open spec fn opt_u64_field(prefix: Seq<char>, v: Option<u64>) -> Seq<char> {
    match v {
        Some(n) => prefix + dec_digits(n as int),
        None => Seq::<char>::empty(),
    }
}

/// The exact JSON line a sparse-index record is written as: the filename and
/// the record's fields, optional fields present only when set.
#[verifier::opaque]
pub open spec fn record_json(rec: SparseIndexRecord) -> Seq<char> {
    let r = rec.package_record;
    "{\"file_name\":"@ + json_string(rec.file_name@) + ",\"name\":"@ + json_string(r.name@)
        + ",\"version\":"@ + json_string(r.version@) + ",\"build\":"@ + json_string(r.build@)
        + ",\"build_number\":"@ + dec_digits(r.build_number as int) + ",\"subdir\":"@
        + json_string(r.subdir@) + ",\"depends\":"@ + json_str_array(
        r.depends@.map_values(|d: String| d@),
    ) + ",\"constrains\":"@ + json_str_array(r.constrains@.map_values(|d: String| d@))
        + opt_str_field(",\"md5\":"@, r.md5) + opt_str_field(",\"sha256\":"@, r.sha256)
        + opt_u64_field(",\"size\":"@, r.size) + opt_u64_field(",\"timestamp\":"@, r.timestamp)
        + opt_str_field(",\"noarch\":"@, r.noarch) + opt_str_field(",\"platform\":"@, r.platform)
        + opt_str_field(",\"arch\":"@, r.arch) + opt_str_field(",\"license\":"@, r.license)
        + opt_str_field(",\"license_family\":"@, r.license_family) + ",\"track_features\":"@
        + json_str_array(r.track_features@.map_values(|d: String| d@)) + opt_str_field(
        ",\"features\":"@,
        r.features,
    ) + ",\"purls\":"@ + json_str_array(r.purls@.map_values(|d: String| d@)) + "}"@
}

/// The text of a whole shard body: one record per line.
pub open spec fn shard_body(records: Seq<SparseIndexRecord>) -> Seq<char>
    decreases records.len(),
{
    if records.len() == 0 {
        Seq::<char>::empty()
    } else {
        record_json(records[0]) + "\n"@ + shard_body(records.drop_first())
    }
}

/// The decimal digit with the given value, executable form.
fn dec_digit_char(v: u64) -> (r: char)
    requires
        v < 10,
    ensures
        r == dec_digit(v as int),
{
    if v == 0 {
        '0'
    } else if v == 1 {
        '1'
    } else if v == 2 {
        '2'
    } else if v == 3 {
        '3'
    } else if v == 4 {
        '4'
    } else if v == 5 {
        '5'
    } else if v == 6 {
        '6'
    } else if v == 7 {
        '7'
    } else if v == 8 {
        '8'
    } else {
        '9'
    }
}

/// The lowercase hexadecimal digit with the given value, executable form.
fn hex_digit_char(v: u32) -> (r: char)
    requires
        v < 16,
    ensures
        r == hex_digit(v as int),
{
    if v < 10 {
        dec_digit_char(v as u64)
    } else if v == 10 {
        'a'
    } else if v == 11 {
        'b'
    } else if v == 12 {
        'c'
    } else if v == 13 {
        'd'
    } else if v == 14 {
        'e'
    } else {
        'f'
    }
}

/// Appends the decimal rendering of an integer.
pub fn push_u64(out: &mut String, v: u64) -> (unit: ())
    ensures
        final(out)@ == old(out)@ + dec_digits(v as int),
    decreases v,
{
    if v < 10 {
        push_char(out, dec_digit_char(v));
        proof {
            assert(out@ =~= old(out)@ + dec_digits(v as int));
        }
    } else {
        push_u64(out, v / 10);
        push_char(out, dec_digit_char(v % 10));
        proof {
            assert(out@ =~= old(out)@ + dec_digits(v as int));
        }
    }
}

/// Appends the JSON escape of one character.
fn push_escaped_char(out: &mut String, c: char) -> (unit: ())
    ensures
        final(out)@ == old(out)@ + json_escape_char(c),
{
    if c == '"' {
        out.append("\\\"");
    } else if c == '\\' {
        out.append("\\\\");
    } else if c == '\n' {
        out.append("\\n");
    } else if c == '\r' {
        out.append("\\r");
    } else if c == '\t' {
        out.append("\\t");
    } else if (c as u32) < 32 {
        out.append("\\u00");
        push_char(out, hex_digit_char((c as u32) / 16));
        push_char(out, hex_digit_char((c as u32) % 16));
        proof {
            assert(out@ =~= old(out)@ + json_escape_char(c));
        }
    } else {
        push_char(out, c);
        proof {
            assert(out@ =~= old(out)@ + json_escape_char(c));
        }
    }
}

/// Extending the escaped text one character at a time.
proof fn lemma_json_escaped_snoc(s: Seq<char>, i: int)
    requires
        0 <= i < s.len(),
    ensures
        json_escaped(s.take(i + 1)) == json_escaped(s.take(i)) + json_escape_char(s[i]),
    decreases i,
{
    let a = s.take(i + 1);
    let b = s.take(i);
    if i == 0 {
        assert(a.drop_first() =~= Seq::<char>::empty());
        assert(b =~= Seq::<char>::empty());
        assert(json_escaped(b) =~= Seq::<char>::empty());
        assert(json_escaped(a.drop_first()) =~= Seq::<char>::empty());
        assert(a[0] == s[0]);
        assert(json_escaped(a) =~= json_escaped(b) + json_escape_char(s[0]));
    } else {
        lemma_json_escaped_snoc(s.drop_first(), i - 1);
        assert(a.drop_first() =~= s.drop_first().take(i));
        assert(b.drop_first() =~= s.drop_first().take(i - 1));
        assert(s.drop_first()[i - 1] == s[i]);
        assert(json_escaped(a) =~= json_escaped(b) + json_escape_char(s[i]));
    }
}

/// Appends the JSON string literal for a string.
fn push_json_string(out: &mut String, s: &str) -> (unit: ())
    ensures
        final(out)@ == old(out)@ + json_string(s@),
{
    out.append("\"");
    let len = s.unicode_len();
    let mut i: usize = 0;
    while i < len
        invariant
            0 <= i <= len,
            len == s@.len(),
            out@ == old(out)@ + "\""@ + json_escaped(s@.take(i as int)),
        decreases len - i,
    {
        let c = s.get_char(i);
        push_escaped_char(out, c);
        proof {
            lemma_json_escaped_snoc(s@, i as int);
        }
        i += 1;
    }
    out.append("\"");
    proof {
        assert(s@.take(len as int) =~= s@);
        assert(out@ =~= old(out)@ + json_string(s@));
    }
}

/// Extending the later array elements one string at a time.
proof fn lemma_json_arr_rest_snoc(xs: Seq<Seq<char>>, i: int)
    requires
        0 <= i < xs.len(),
    ensures
        json_arr_rest(xs.take(i + 1)) == json_arr_rest(xs.take(i)) + ","@ + json_string(xs[i]),
    decreases i,
{
    let a = xs.take(i + 1);
    let b = xs.take(i);
    if i == 0 {
        assert(a.drop_first() =~= Seq::<Seq<char>>::empty());
        assert(b =~= Seq::<Seq<char>>::empty());
        assert(json_arr_rest(b) =~= Seq::<char>::empty());
        assert(json_arr_rest(a.drop_first()) =~= Seq::<char>::empty());
        assert(a[0] == xs[0]);
        assert(json_arr_rest(a) =~= json_arr_rest(b) + ","@ + json_string(xs[0]));
    } else {
        lemma_json_arr_rest_snoc(xs.drop_first(), i - 1);
        assert(a.drop_first() =~= xs.drop_first().take(i));
        assert(b.drop_first() =~= xs.drop_first().take(i - 1));
        assert(xs.drop_first()[i - 1] == xs[i]);
        assert(json_arr_rest(a) =~= json_arr_rest(b) + ","@ + json_string(xs[i]));
    }
}

/// Appends a JSON array of string literals.
fn push_str_array(out: &mut String, xs: &Vec<String>) -> (unit: ())
    ensures
        final(out)@ == old(out)@ + json_str_array(xs@.map_values(|d: String| d@)),
{
    let ghost view = xs@.map_values(|d: String| d@);
    let n = xs.len();
    if n == 0 {
        out.append("[]");
        proof {
            assert(view.len() == 0);
        }
        return ;
    }
    out.append("[");
    push_json_string(out, xs[0].as_str());
    let mut i: usize = 1;
    while i < n
        invariant
            1 <= i <= n,
            n == xs@.len(),
            view == xs@.map_values(|d: String| d@),
            n == view.len(),
            out@ == old(out)@ + "["@ + json_string(view[0]) + json_arr_rest(
                view.drop_first().take(i - 1),
            ),
        decreases n - i,
    {
        out.append(",");
        push_json_string(out, xs[i].as_str());
        proof {
            lemma_json_arr_rest_snoc(view.drop_first(), i - 1);
            assert(view.drop_first()[i - 1] == view[i as int]);
            assert(out@ =~= old(out)@ + "["@ + json_string(view[0]) + json_arr_rest(
                view.drop_first().take(i as int),
            ));
        }
        i += 1;
    }
    out.append("]");
    proof {
        assert(view.drop_first().take(n - 1) =~= view.drop_first());
        assert(out@ =~= old(out)@ + json_str_array(view));
    }
}

/// Appends an optional string field: the prefix and value when present.
fn push_opt_str_field(out: &mut String, prefix: &str, v: &Option<String>) -> (unit: ())
    ensures
        final(out)@ == old(out)@ + opt_str_field(prefix@, *v),
{
    match v {
        Some(s) => {
            out.append(prefix);
            push_json_string(out, s.as_str());
            proof {
                assert(out@ =~= old(out)@ + opt_str_field(prefix@, *v));
            }
        },
        None => {
            proof {
                assert(out@ =~= old(out)@ + opt_str_field(prefix@, *v));
            }
        },
    }
}

/// Appends an optional integer field: the prefix and value when present.
fn push_opt_u64_field(out: &mut String, prefix: &str, v: &Option<u64>) -> (unit: ())
    ensures
        final(out)@ == old(out)@ + opt_u64_field(prefix@, *v),
{
    match v {
        Some(nv) => {
            out.append(prefix);
            push_u64(out, *nv);
            proof {
                assert(out@ =~= old(out)@ + opt_u64_field(prefix@, *v));
            }
        },
        None => {
            proof {
                assert(out@ =~= old(out)@ + opt_u64_field(prefix@, *v));
            }
        },
    }
}

impl SparseIndexRecord {
    /// Renders the record as its JSON line.
    pub fn json(&self) -> (r: String)
        ensures
            r@ == record_json(*self),
    {
        let mut out = String::new();
        out.append("{\"file_name\":");
        push_json_string(&mut out, self.file_name.as_str());
        out.append(",\"name\":");
        push_json_string(&mut out, self.package_record.name.as_normalized());
        out.append(",\"version\":");
        push_json_string(&mut out, self.package_record.version.as_str());
        out.append(",\"build\":");
        push_json_string(&mut out, self.package_record.build.as_str());
        out.append(",\"build_number\":");
        push_u64(&mut out, self.package_record.build_number);
        out.append(",\"subdir\":");
        push_json_string(&mut out, self.package_record.subdir.as_str());
        out.append(",\"depends\":");
        push_str_array(&mut out, &self.package_record.depends);
        out.append(",\"constrains\":");
        push_str_array(&mut out, &self.package_record.constrains);
        push_opt_str_field(&mut out, ",\"md5\":", &self.package_record.md5);
        push_opt_str_field(&mut out, ",\"sha256\":", &self.package_record.sha256);
        push_opt_u64_field(&mut out, ",\"size\":", &self.package_record.size);
        push_opt_u64_field(&mut out, ",\"timestamp\":", &self.package_record.timestamp);
        push_opt_str_field(&mut out, ",\"noarch\":", &self.package_record.noarch);
        push_opt_str_field(&mut out, ",\"platform\":", &self.package_record.platform);
        push_opt_str_field(&mut out, ",\"arch\":", &self.package_record.arch);
        push_opt_str_field(&mut out, ",\"license\":", &self.package_record.license);
        push_opt_str_field(&mut out, ",\"license_family\":", &self.package_record.license_family);
        out.append(",\"track_features\":");
        push_str_array(&mut out, &self.package_record.track_features);
        push_opt_str_field(&mut out, ",\"features\":", &self.package_record.features);
        out.append(",\"purls\":");
        push_str_array(&mut out, &self.package_record.purls);
        out.append("}");
        proof {
            reveal(record_json);
            assert(out@ =~= record_json(*self));
        }
        out
    }
}


/// An error when decoding a shard file.
#[derive(Debug, Clone, Copy, PartialEq, Eq, Structural)]
pub enum ShardDecodeError {
    /// The zstd frame could not be decompressed.
    Compression,
    /// The body is not valid UTF-8 or a line is not a valid record.
    Encoding,
}

/// An error when producing a shard file.
#[derive(Debug, Clone, Copy, PartialEq, Eq, Structural)]
pub enum ShardEncodeError {
    /// The zstd encoder failed.
    Compression,
}

/// Advances past whitespace.
fn skip_ws(cs: &Vec<char>, pos: usize, to: usize) -> (r: usize)
    requires
        pos <= to <= cs@.len(),
    ensures
        pos <= r <= to,
    decreases to - pos,
{
    let mut p = pos;
    while p < to
        invariant
            pos <= p <= to,
            to <= cs@.len(),
        decreases to - p,
    {
        let c = cs[p];
        if c == ' ' || c == '\t' || c == '\n' || c == '\r' {
            p += 1;
        } else {
            break;
        }
    }
    p
}

/// The value of a hexadecimal digit character, or 16 when it is none.
fn hex_value(c: char) -> (r: u32)
    ensures
        r <= 16,
{
    if '0' <= c && c <= '9' {
        (c as u32) - ('0' as u32)
    } else if 'a' <= c && c <= 'f' {
        (c as u32) - ('a' as u32) + 10
    } else if 'A' <= c && c <= 'F' {
        (c as u32) - ('A' as u32) + 10
    } else {
        16
    }
}

/// Parses the four hex digits of a unicode escape.
fn parse_hex4(cs: &Vec<char>, pos: usize, to: usize) -> (r: Option<u32>)
    requires
        pos <= to <= cs@.len(),
    ensures
        r matches Some(u) ==> u < 0x10000 && pos + 4 <= to,
{
    if to - pos < 4 {
        return None;
    }
    let a = hex_value(cs[pos]);
    let b = hex_value(cs[pos + 1]);
    let c = hex_value(cs[pos + 2]);
    let d = hex_value(cs[pos + 3]);
    if a > 15 || b > 15 || c > 15 || d > 15 {
        return None;
    }
    Some(a * 4096 + b * 256 + c * 16 + d)
}

/// Parses a JSON string literal starting at `pos` (which must hold the
/// opening quote): the decoded text and the position just past the closing
/// quote.
fn parse_string_at(cs: &Vec<char>, pos: usize, to: usize) -> (r: Option<(String, usize)>)
    requires
        pos <= to <= cs@.len(),
    ensures
        r matches Some(v) ==> pos < v.1 <= to,
{
    if pos >= to || cs[pos] != '"' {
        return None;
    }
    let mut out = String::new();
    let mut p = pos + 1;
    loop
        invariant
            pos < p <= to,
            to <= cs@.len(),
        decreases to - p,
    {
        if p >= to {
            return None;
        }
        let c = cs[p];
        if c == '"' {
            return Some((out, p + 1));
        }
        if c == '\\' {
            if p + 1 >= to {
                return None;
            }
            let e = cs[p + 1];
            if e == '"' {
                push_char(&mut out, '"');
                p += 2;
            } else if e == '\\' {
                push_char(&mut out, '\\');
                p += 2;
            } else if e == '/' {
                push_char(&mut out, '/');
                p += 2;
            } else if e == 'b' {
                push_char(&mut out, '\u{8}');
                p += 2;
            } else if e == 'f' {
                push_char(&mut out, '\u{c}');
                p += 2;
            } else if e == 'n' {
                push_char(&mut out, '\n');
                p += 2;
            } else if e == 'r' {
                push_char(&mut out, '\r');
                p += 2;
            } else if e == 't' {
                push_char(&mut out, '\t');
                p += 2;
            } else if e == 'u' {
                let u = match parse_hex4(cs, p + 2, to) {
                    Some(u) => u,
                    None => {
                        return None;
                    },
                };
                if 0xD800 <= u && u < 0xDC00 {
                    // A high surrogate: a low surrogate escape must follow.
                    if to - p < 12 {
                        return None;
                    }
                    if !(cs[p + 6] == '\\' && cs[p + 7] == 'u') {
                        return None;
                    }
                    let lo = match parse_hex4(cs, p + 8, to) {
                        Some(lo) => lo,
                        None => {
                            return None;
                        },
                    };
                    if !(0xDC00 <= lo && lo < 0xE000) {
                        return None;
                    }
                    let code: u32 = 0x10000 + (u - 0xD800) * 0x400 + (lo - 0xDC00);
                    match char_from_u32(code) {
                        Some(ch) => {
                            push_char(&mut out, ch);
                        },
                        None => {
                            return None;
                        },
                    }
                    p += 12;
                } else {
                    match char_from_u32(u) {
                        Some(ch) => {
                            push_char(&mut out, ch);
                        },
                        None => {
                            return None;
                        },
                    }
                    p += 6;
                }
            } else {
                return None;
            }
        } else if (c as u32) < 32 {
            // Raw control characters are not allowed inside a string.
            return None;
        } else {
            push_char(&mut out, c);
            p += 1;
        }
        if p > to {
            return None;
        }
    }
}

/// Parses an unsigned decimal integer.
fn parse_u64_at(cs: &Vec<char>, pos: usize, to: usize) -> (r: Option<(u64, usize)>)
    requires
        pos <= to <= cs@.len(),
    ensures
        r matches Some(v) ==> pos < v.1 <= to,
{
    let mut p = pos;
    let mut acc: u64 = 0;
    while p < to
        invariant
            pos <= p <= to,
            to <= cs@.len(),
        decreases to - p,
    {
        let c = cs[p];
        if '0' <= c && c <= '9' {
            let d: u64 = ((c as u32) - ('0' as u32)) as u64;
            if acc > 1844674407370955160 {
                return None;
            }
            acc = acc * 10;
            if acc > 18446744073709551615 - d {
                return None;
            }
            acc = acc + d;
            p += 1;
        } else {
            break;
        }
    }
    if p == pos {
        return None;
    }
    Some((acc, p))
}

/// Skips one JSON value of any kind.
fn skip_value_at(cs: &Vec<char>, pos: usize, to: usize) -> (r: Option<usize>)
    requires
        pos <= to <= cs@.len(),
    ensures
        r matches Some(p) ==> pos < p <= to,
    decreases to - pos,
{
    if pos >= to {
        return None;
    }
    let c = cs[pos];
    if c == '"' {
        match parse_string_at(cs, pos, to) {
            Some((_, p)) => Some(p),
            None => None,
        }
    } else if c == '[' {
        let mut p = skip_ws(cs, pos + 1, to);
        if p < to && cs[p] == ']' {
            return Some(p + 1);
        }
        loop
            invariant
                pos < p <= to,
                to <= cs@.len(),
            decreases to - p,
        {
            let q = match skip_value_at(cs, p, to) {
                Some(q) => q,
                None => {
                    return None;
                },
            };
            let q2 = skip_ws(cs, q, to);
            if q2 < to && cs[q2] == ',' {
                p = skip_ws(cs, q2 + 1, to);
                if p <= q2 {
                    return None;
                }
            } else if q2 < to && cs[q2] == ']' {
                return Some(q2 + 1);
            } else {
                return None;
            }
        }
    } else if c == '{' {
        let mut p = skip_ws(cs, pos + 1, to);
        if p < to && cs[p] == '}' {
            return Some(p + 1);
        }
        loop
            invariant
                pos < p <= to,
                to <= cs@.len(),
            decreases to - p,
        {
            let q_key = match parse_string_at(cs, p, to) {
                Some((_, q)) => q,
                None => {
                    return None;
                },
            };
            let q_colon = skip_ws(cs, q_key, to);
            if !(q_colon < to && cs[q_colon] == ':') {
                return None;
            }
            let q_val_start = skip_ws(cs, q_colon + 1, to);
            let q = match skip_value_at(cs, q_val_start, to) {
                Some(q) => q,
                None => {
                    return None;
                },
            };
            let q2 = skip_ws(cs, q, to);
            if q2 < to && cs[q2] == ',' {
                p = skip_ws(cs, q2 + 1, to);
                if p <= q2 {
                    return None;
                }
            } else if q2 < to && cs[q2] == '}' {
                return Some(q2 + 1);
            } else {
                return None;
            }
        }
    } else {
        // A number, boolean or null: advance to the next delimiter.
        let mut p = pos;
        while p < to
            invariant
                pos <= p <= to,
                to <= cs@.len(),
            decreases to - p,
        {
            let d = cs[p];
            if d == ',' || d == ']' || d == '}' || d == ' ' || d == '\t' || d == '\n' || d
                == '\r' {
                break;
            }
            p += 1;
        }
        if p == pos {
            None
        } else {
            Some(p)
        }
    }
}

/// Parses a JSON array of strings.
fn parse_str_array_at(cs: &Vec<char>, pos: usize, to: usize) -> (r: Option<(Vec<String>, usize)>)
    requires
        pos <= to <= cs@.len(),
    ensures
        r matches Some(v) ==> pos < v.1 <= to,
{
    if pos >= to || cs[pos] != '[' {
        return None;
    }
    let mut out: Vec<String> = Vec::new();
    let mut p = skip_ws(cs, pos + 1, to);
    if p < to && cs[p] == ']' {
        return Some((out, p + 1));
    }
    loop
        invariant
            pos < p <= to,
            to <= cs@.len(),
        decreases to - p,
    {
        let (s, q) = match parse_string_at(cs, p, to) {
            Some(v) => v,
            None => {
                return None;
            },
        };
        out.push(s);
        let q2 = skip_ws(cs, q, to);
        if q2 < to && cs[q2] == ',' {
            p = skip_ws(cs, q2 + 1, to);
            if p <= q2 {
                return None;
            }
        } else if q2 < to && cs[q2] == ']' {
            return Some((out, q2 + 1));
        } else {
            return None;
        }
    }
}

/// Parses one shard line: a JSON object holding a package record and its
/// `file_name`. Field order is free and unknown fields are skipped; the
/// `file_name`, `name`, `version`, `build` and `subdir` fields are required.
/// The parser accepts any input without panicking and yields `None` on
/// anything malformed; an accepted record carries a well-formed normalized
/// package name. Beyond that the acceptance condition is a general JSON
/// grammar this contract does not pin down; where the input is known to be a
/// record's own rendering, [`parse_record_line_canonical`] pins the parse
/// exactly, and the tests exercise the permissive path.
pub fn parse_record_line(line: &str) -> (r: Option<SparseIndexRecord>)
    ensures
        r matches Some(rec) ==> rec.package_record.name.wf(),
{
    let cs = str_chars(line);
    let to = cs.len();
    let mut file_name: Option<String> = None;
    let mut name: Option<PackageName> = None;
    let mut version: Option<String> = None;
    let mut build: Option<String> = None;
    let mut build_number: u64 = 0;
    let mut subdir: Option<String> = None;
    let mut depends: Vec<String> = Vec::new();
    let mut constrains: Vec<String> = Vec::new();
    let mut md5: Option<String> = None;
    let mut sha256_field: Option<String> = None;
    let mut size: Option<u64> = None;
    let mut timestamp: Option<u64> = None;
    let mut noarch: Option<String> = None;
    let mut platform: Option<String> = None;
    let mut arch: Option<String> = None;
    let mut license: Option<String> = None;
    let mut license_family: Option<String> = None;
    let mut track_features: Vec<String> = Vec::new();
    let mut features: Option<String> = None;
    let mut purls: Vec<String> = Vec::new();

    let mut p = skip_ws(&cs, 0, to);
    if !(p < to && cs[p] == '{') {
        return None;
    }
    p = skip_ws(&cs, p + 1, to);
    let mut done = false;
    if p < to && cs[p] == '}' {
        p = p + 1;
        done = true;
    }
    while !done
        invariant
            0 <= p <= to,
            to == cs@.len(),
            match name {
                Some(n) => n.wf(),
                None => true,
            },
        decreases to - p + 1,
    {
        let (key, q) = match parse_string_at(&cs, p, to) {
            Some(v) => v,
            None => {
                return None;
            },
        };
        let q_colon = skip_ws(&cs, q, to);
        if !(q_colon < to && cs[q_colon] == ':') {
            return None;
        }
        let v_start = skip_ws(&cs, q_colon + 1, to);
        let key_str = key.as_str();
        let v_end: usize;
        if str_eq(key_str, "file_name") {
            let (s, e) = match parse_string_at(&cs, v_start, to) {
                Some(v) => v,
                None => {
                    return None;
                },
            };
            file_name = Some(s);
            v_end = e;
        } else if str_eq(key_str, "name") {
            let (s, e) = match parse_string_at(&cs, v_start, to) {
                Some(v) => v,
                None => {
                    return None;
                },
            };
            name = match PackageName::normalize(s.as_str()) {
                Some(n) => Some(n),
                None => {
                    return None;
                },
            };
            v_end = e;
        } else if str_eq(key_str, "version") {
            let (s, e) = match parse_string_at(&cs, v_start, to) {
                Some(v) => v,
                None => {
                    return None;
                },
            };
            version = Some(s);
            v_end = e;
        } else if str_eq(key_str, "build") {
            let (s, e) = match parse_string_at(&cs, v_start, to) {
                Some(v) => v,
                None => {
                    return None;
                },
            };
            build = Some(s);
            v_end = e;
        } else if str_eq(key_str, "subdir") {
            let (s, e) = match parse_string_at(&cs, v_start, to) {
                Some(v) => v,
                None => {
                    return None;
                },
            };
            subdir = Some(s);
            v_end = e;
        } else if str_eq(key_str, "build_number") {
            let (nv, e) = match parse_u64_at(&cs, v_start, to) {
                Some(v) => v,
                None => {
                    return None;
                },
            };
            build_number = nv;
            v_end = e;
        } else if str_eq(key_str, "size") {
            let (nv, e) = match parse_u64_at(&cs, v_start, to) {
                Some(v) => v,
                None => {
                    return None;
                },
            };
            size = Some(nv);
            v_end = e;
        } else if str_eq(key_str, "timestamp") {
            let (nv, e) = match parse_u64_at(&cs, v_start, to) {
                Some(v) => v,
                None => {
                    return None;
                },
            };
            timestamp = Some(nv);
            v_end = e;
        } else if str_eq(key_str, "depends") {
            let (xs, e) = match parse_str_array_at(&cs, v_start, to) {
                Some(v) => v,
                None => {
                    return None;
                },
            };
            depends = xs;
            v_end = e;
        } else if str_eq(key_str, "constrains") {
            let (xs, e) = match parse_str_array_at(&cs, v_start, to) {
                Some(v) => v,
                None => {
                    return None;
                },
            };
            constrains = xs;
            v_end = e;
        } else if str_eq(key_str, "track_features") {
            let (xs, e) = match parse_str_array_at(&cs, v_start, to) {
                Some(v) => v,
                None => {
                    return None;
                },
            };
            track_features = xs;
            v_end = e;
        } else if str_eq(key_str, "purls") {
            let (xs, e) = match parse_str_array_at(&cs, v_start, to) {
                Some(v) => v,
                None => {
                    return None;
                },
            };
            purls = xs;
            v_end = e;
        } else if str_eq(key_str, "md5") || str_eq(key_str, "sha256") || str_eq(key_str, "noarch")
            || str_eq(key_str, "platform") || str_eq(key_str, "arch") || str_eq(key_str, "license")
            || str_eq(key_str, "license_family") || str_eq(key_str, "features") {
            let (s, e) = match parse_string_at(&cs, v_start, to) {
                Some(v) => v,
                None => {
                    return None;
                },
            };
            if str_eq(key_str, "md5") {
                md5 = Some(s);
            } else if str_eq(key_str, "sha256") {
                sha256_field = Some(s);
            } else if str_eq(key_str, "noarch") {
                noarch = Some(s);
            } else if str_eq(key_str, "platform") {
                platform = Some(s);
            } else if str_eq(key_str, "arch") {
                arch = Some(s);
            } else if str_eq(key_str, "license") {
                license = Some(s);
            } else if str_eq(key_str, "license_family") {
                license_family = Some(s);
            } else {
                features = Some(s);
            }
            v_end = e;
        } else {
            let e = match skip_value_at(&cs, v_start, to) {
                Some(e) => e,
                None => {
                    return None;
                },
            };
            v_end = e;
        }
        let after = skip_ws(&cs, v_end, to);
        if after < to && cs[after] == ',' {
            p = skip_ws(&cs, after + 1, to);
        } else if after < to && cs[after] == '}' {
            p = after + 1;
            done = true;
        } else {
            return None;
        }
    }
    let tail_pos = skip_ws(&cs, p, to);
    if tail_pos != to {
        return None;
    }
    let file_name = match file_name {
        Some(v) => v,
        None => {
            return None;
        },
    };
    let name = match name {
        Some(v) => v,
        None => {
            return None;
        },
    };
    let version = match version {
        Some(v) => v,
        None => {
            return None;
        },
    };
    let build = match build {
        Some(v) => v,
        None => {
            return None;
        },
    };
    let subdir = match subdir {
        Some(v) => v,
        None => {
            return None;
        },
    };
    Some(
        SparseIndexRecord {
            file_name,
            package_record: PackageRecord {
                name,
                version,
                build,
                build_number,
                subdir,
                depends,
                constrains,
                md5,
                sha256: sha256_field,
                size,
                timestamp,
                noarch,
                platform,
                arch,
                license,
                license_family,
                track_features,
                features,
                purls,
            },
        },
    )
}

/// Splits a shard body into lines and parses each nonempty line as a record.
/// Yields `None` when a line is malformed. Like [`parse_record_line`], the
/// acceptance condition is not pinned here; [`decode_shard_checked`] pins the
/// accepted body down to the records' own rendering.
pub fn parse_shard_text(text: &str) -> (r: Option<Vec<SparseIndexRecord>>)
    ensures
        r matches Some(rs) ==> forall|i: int|
            0 <= i < rs@.len() ==> (#[trigger] rs@[i]).package_record.name.wf(),
{
    let cs = str_chars(text);
    let n = cs.len();
    let mut records: Vec<SparseIndexRecord> = Vec::new();
    let mut start: usize = 0;
    let mut i: usize = 0;
    while i < n
        invariant
            0 <= start <= i <= n,
            n == cs@.len(),
            forall|j: int|
                0 <= j < records@.len() ==> (#[trigger] records@[j]).package_record.name.wf(),
        decreases n - i,
    {
        if cs[i] == '\n' {
            if start < i {
                match parse_line_range(&cs, start, i) {
                    Some(rec) => {
                        records.push(rec);
                    },
                    None => {
                        return None;
                    },
                }
            }
            start = i + 1;
        }
        i += 1;
    }
    if start < n {
        match parse_line_range(&cs, start, n) {
            Some(rec) => {
                records.push(rec);
            },
            None => {
                return None;
            },
        }
    }
    Some(records)
}

/// Parses the characters in `[start, end)` as one record line.
fn parse_line_range(cs: &Vec<char>, start: usize, end: usize) -> (r: Option<SparseIndexRecord>)
    requires
        start <= end <= cs@.len(),
    ensures
        r matches Some(rec) ==> rec.package_record.name.wf(),
{
    let mut line = String::new();
    let mut k = start;
    while k < end
        invariant
            start <= k <= end,
            end <= cs@.len(),
        decreases end - k,
    {
        push_char(&mut line, cs[k]);
        k += 1;
    }
    parse_record_line(line.as_str())
}

impl SparseIndexPackage {
    /// Renders the shard body text: each record's JSON line.
    pub fn body(&self) -> (r: String)
        ensures
            r@ == shard_body(self.records@),
    {
        let mut out = String::new();
        let n = self.records.len();
        let mut i: usize = 0;
        while i < n
            invariant
                0 <= i <= n,
                n == self.records@.len(),
                out@ == shard_body(self.records@.take(i as int)),
            decreases n - i,
        {
            let line = self.records[i].json();
            out.append(line.as_str());
            out.append("\n");
            proof {
                lemma_shard_body_snoc(self.records@, i as int);
                assert(out@ =~= shard_body(self.records@.take(i as int + 1)));
            }
            i += 1;
        }
        proof {
            assert(self.records@.take(n as int) =~= self.records@);
        }
        out
    }

    /// Produces the shard file: the body compressed as a zstd frame, together
    /// with the file's 32-byte SHA-256 digest.
    pub fn write(&self) -> (r: Result<(Vec<u8>, Vec<u8>), ShardEncodeError>)
        ensures
            r matches Ok(v) ==> v.0@ == zstd_frame_of(
                SHARD_ZSTD_LEVEL as int,
                encode_utf8(shard_body(self.records@)),
            ) && v.1@ == sha256_of(v.0@) && v.1@.len() == 32,
    {
        let text = self.body();
        let raw = text.as_str().as_bytes_vec();
        let compressed = match zstd_compress(&raw, SHARD_ZSTD_LEVEL) {
            Ok(c) => c,
            Err(_) => {
                return Err(ShardEncodeError::Compression);
            },
        };
        let digest = sha256(&compressed);
        Ok((compressed, digest))
    }
}

/// Extending the shard body one record at a time.
proof fn lemma_shard_body_snoc(records: Seq<SparseIndexRecord>, i: int)
    requires
        0 <= i < records.len(),
    ensures
        shard_body(records.take(i + 1)) == shard_body(records.take(i)) + record_json(records[i])
            + "\n"@,
    decreases i,
{
    let a = records.take(i + 1);
    let b = records.take(i);
    if i == 0 {
        assert(a.drop_first() =~= Seq::<SparseIndexRecord>::empty());
        assert(b =~= Seq::<SparseIndexRecord>::empty());
        assert(shard_body(b) =~= Seq::<char>::empty());
        assert(shard_body(a.drop_first()) =~= Seq::<char>::empty());
        assert(a[0] == records[0]);
        assert(shard_body(a) =~= shard_body(b) + record_json(records[0]) + "\n"@);
    } else {
        lemma_shard_body_snoc(records.drop_first(), i - 1);
        assert(a.drop_first() =~= records.drop_first().take(i));
        assert(b.drop_first() =~= records.drop_first().take(i - 1));
        assert(records.drop_first()[i - 1] == records[i]);
        assert(shard_body(a) =~= shard_body(b) + record_json(records[i]) + "\n"@);
    }
}

/// Decodes a shard file: decompresses it when `compressed`, then parses the
/// body as UTF-8 lines of records. This permissive decoder accepts foreign
/// shards (any field order, unknown fields ignored) and its acceptance
/// condition is not pinned by a contract; [`decode_shard_checked`] is the
/// variant whose result is pinned to the input bytes.
pub fn decode_shard(data: &Vec<u8>, compressed: bool) -> (r: Result<
    Vec<SparseIndexRecord>,
    ShardDecodeError,
>)
    ensures
        r matches Ok(rs) ==> forall|i: int|
            0 <= i < rs@.len() ==> (#[trigger] rs@[i]).package_record.name.wf(),
{
    let raw: Vec<u8> = if compressed {
        match zstd_decompress(data) {
            Ok(b) => b,
            Err(_) => {
                return Err(ShardDecodeError::Compression);
            },
        }
    } else {
        copy_bytes(data)
    };
    let text = match string_from_utf8(raw) {
        Some(t) => t,
        None => {
            return Err(ShardDecodeError::Encoding);
        },
    };
    match parse_shard_text(text.as_str()) {
        Some(records) => Ok(records),
        None => Err(ShardDecodeError::Encoding),
    }
}

/// Parses one shard line and accepts the result only when the line is
/// exactly the record's own rendering: on success the input is pinned down
/// to [`record_json`] of the result. The permissive [`parse_record_line`]
/// stays for foreign shards, whose field order and unknown fields no exact
/// rendering can match.
pub fn parse_record_line_canonical(line: &str) -> (r: Option<SparseIndexRecord>)
    ensures
        r matches Some(rec) ==> line@ == record_json(rec),
{
    let rec = match parse_record_line(line) {
        Some(rec) => rec,
        None => {
            return None;
        },
    };
    let canon = rec.json();
    if str_eq(line, canon.as_str()) {
        Some(rec)
    } else {
        None
    }
}

/// Decodes a shard file and accepts the result only when the decompressed
/// body is exactly the records' own rendering: on success the input bytes
/// are pinned down to the encoding (and, when compressed, the frame) of
/// [`shard_body`] of the result. Reading back what
/// [`SparseIndexPackage::write`] produced therefore recovers a record list
/// with the written shard body, as [`lemma_shard_read_back`] states.
pub fn decode_shard_checked(data: &Vec<u8>, compressed: bool) -> (r: Result<
    Vec<SparseIndexRecord>,
    ShardDecodeError,
>)
    ensures
        r matches Ok(rs) ==> {
            &&& !compressed ==> data@ == encode_utf8(shard_body(rs@))
            &&& compressed ==> forall|lvl: int, orig: Seq<u8>|
                data@ == #[trigger] zstd_frame_of(lvl, orig) ==> orig == encode_utf8(
                    shard_body(rs@),
                )
        },
{
    let raw: Vec<u8> = if compressed {
        match zstd_decompress(data) {
            Ok(b) => b,
            Err(_) => {
                return Err(ShardDecodeError::Compression);
            },
        }
    } else {
        copy_bytes(data)
    };
    let ghost rawv = raw@;
    let text = match string_from_utf8(raw) {
        Some(t) => t,
        None => {
            return Err(ShardDecodeError::Encoding);
        },
    };
    let records = match parse_shard_text(text.as_str()) {
        Some(records) => records,
        None => {
            return Err(ShardDecodeError::Encoding);
        },
    };
    let package = SparseIndexPackage { records };
    let canon = package.body();
    if str_eq(text.as_str(), canon.as_str()) {
        proof {
            assert(text@ == shard_body(package.records@));
            assert(encode_utf8(text@) == rawv);
        }
        Ok(package.records)
    } else {
        Err(ShardDecodeError::Encoding)
    }
}

/// Reading a written shard back through the checked decoder recovers a
/// record list whose shard body equals the written one: the frame produced
/// by [`SparseIndexPackage::write`], decoded and accepted by
/// [`decode_shard_checked`], renders to the very lines that were written.
pub proof fn lemma_shard_read_back(
    written: Seq<SparseIndexRecord>,
    read: Seq<SparseIndexRecord>,
    data: Seq<u8>,
)
    requires
        data == zstd_frame_of(SHARD_ZSTD_LEVEL as int, encode_utf8(shard_body(written))),
        forall|lvl: int, orig: Seq<u8>|
            data == #[trigger] zstd_frame_of(lvl, orig) ==> orig == encode_utf8(
                shard_body(read),
            ),
    ensures
        shard_body(read) == shard_body(written),
{
    assert(encode_utf8(shard_body(written)) == encode_utf8(shard_body(read)));
    vstd::utf8::encode_utf8_decode_utf8(shard_body(written));
    vstd::utf8::encode_utf8_decode_utf8(shard_body(read));
}

/// Decodes the contents of a local shard file: a missing file means the
/// package simply does not exist in the subdirectory and yields no records,
/// not an error; a present file is decoded as an uncompressed shard body.
pub fn decode_local_shard(contents: Option<Vec<u8>>) -> (r: Result<
    Vec<SparseIndexRecord>,
    ShardDecodeError,
>)
    ensures
        contents is None ==> (r matches Ok(v) && v@.len() == 0),
        r matches Ok(rs) ==> forall|i: int|
            0 <= i < rs@.len() ==> (#[trigger] rs@[i]).package_record.name.wf(),
{
    match contents {
        None => Ok(Vec::new()),
        Some(bytes) => decode_shard(&bytes, false),
    }
}

/// Copies a byte vector.
fn copy_bytes(data: &Vec<u8>) -> (r: Vec<u8>)
    ensures
        r@ == data@,
{
    let mut out: Vec<u8> = Vec::new();
    let n = data.len();
    let mut i: usize = 0;
    while i < n
        invariant
            0 <= i <= n,
            n == data@.len(),
            out@ == data@.take(i as int),
        decreases n - i,
    {
        out.push(data[i]);
        proof {
            assert(out@ =~= data@.take(i as int + 1));
        }
        i += 1;
    }
    proof {
        assert(data@.take(n as int) =~= data@);
    }
    out
}

} // verus!
