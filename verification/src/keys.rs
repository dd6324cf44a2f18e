//! Parsing of the storage keys that name vertices and edges:
//! `{space}:vertex:{vid}` and `{space}:edge:{src}:{type}:{dst}:{rank}`.
use vstd::prelude::*;
use vstd::utf8::{decode_utf8, valid_utf8};
use vstd::utf8::{encode_utf8, encode_utf8_decode_utf8, encode_utf8_valid_utf8};
use vstd::string::StringExecFns;
use crate::text::{chars_of, parse_i64, parse_i64_spec, split_chars, split_on, string_of_chars, lemma_split_on_nonempty, push_signed_decimal, signed_decimal, decimal, digit_char, digits_value, digit_value, is_digit, all_digits};

verus! {

/// Decodes `bytes` with `std::str::from_utf8`. The contract claims that it
/// succeeds exactly on well-formed UTF-8 and then yields the characters that
/// the bytes encode.
#[verifier::external_body]
pub(crate) fn utf8_text(bytes: &[u8]) -> (r: Option<&str>)
    ensures
        r is Some <==> valid_utf8(bytes@),
        r matches Some(s) ==> s@ == decode_utf8(bytes@),
{
    std::str::from_utf8(bytes).ok()
}

/// The `:`-separated fields of a key, when the key is valid UTF-8.
pub open spec fn key_fields(key: Seq<u8>) -> Option<Seq<Seq<char>>> {
    if valid_utf8(key) {
        Some(split_on(decode_utf8(key), ':'))
    } else {
        None
    }
}

/// The edge type of an edge key: its fourth `:`-separated field.
pub open spec fn edge_type_spec(key: Seq<u8>) -> Option<Seq<char>> {
    match key_fields(key) {
        Some(fields) => if fields.len() > 3 {
            Some(fields[3])
        } else {
            None
        },
        None => None,
    }
}

/// The vertex id of a vertex key: its last `:`-separated field, read as an
/// `i64`.
pub open spec fn vertex_key_vid_spec(key: Seq<u8>) -> Option<i64> {
    match key_fields(key) {
        Some(fields) => parse_i64_spec(fields.last()),
        None => None,
    }
}

/// The edge type named by an edge key, or `None` when the key is not UTF-8
/// or has fewer than four fields.
pub fn edge_type_from_key(key: &[u8]) -> (r: Option<String>)
    ensures
        match r {
            Some(t) => edge_type_spec(key@) == Some(t@),
            None => edge_type_spec(key@) is None,
        },
{
    let text = match utf8_text(key) {
        Some(t) => t,
        None => return None,
    };
    let chars = chars_of(text);
    let fields = split_chars(&chars, ':');
    if fields.len() > 3 {
        Some(string_of_chars(&fields[3]))
    } else {
        None
    }
}

/// The vertex id at the end of a `{space}:vertex:{vid}` key, or `None` when
/// the key is not UTF-8 or its last field is not an `i64`.
pub fn vid_from_vertex_key(key: &[u8]) -> (r: Option<i64>)
    ensures
        r == vertex_key_vid_spec(key@),
{
    let text = match utf8_text(key) {
        Some(t) => t,
        None => return None,
    };
    let chars = chars_of(text);
    let fields = split_chars(&chars, ':');
    proof {
        lemma_split_on_nonempty(chars@, ':');
    }
    let last = fields.len() - 1;
    parse_i64(&fields[last])
}

/// The key of a vertex: `{space}:vertex:{vid}`.
pub open spec fn vertex_key_text(space: Seq<char>, vid: i64) -> Seq<char> {
    space + ":vertex:"@ + signed_decimal(vid as int)
}

/// The key of an edge: `{space}:edge:{src}:{type}:{dst}:{rank}`.
pub open spec fn edge_key_text(space: Seq<char>, src: i64, edge_type: Seq<char>, dst: i64, rank: i64) -> Seq<
    char,
> {
    space + ":edge:"@ + signed_decimal(src as int) + ":"@ + edge_type + ":"@ + signed_decimal(
        dst as int,
    ) + ":"@ + signed_decimal(rank as int)
}

/// Builds the key of vertex `vid` in `space`.
pub fn vertex_key(space: &str, vid: i64) -> (r: String)
    ensures
        r@ == vertex_key_text(space@, vid),
{
    let mut out = String::from_str(space);
    out.append(":vertex:");
    push_signed_decimal(&mut out, vid);
    out
}

/// Builds the key of the edge `(src)-edge_type->(dst)` at `rank` in `space`.
pub fn edge_key(space: &str, src: i64, edge_type: &str, dst: i64, rank: i64) -> (r: String)
    ensures
        r@ == edge_key_text(space@, src, edge_type@, dst, rank),
{
    let mut out = String::from_str(space);
    out.append(":edge:");
    push_signed_decimal(&mut out, src);
    out.append(":");
    out.append(edge_type);
    out.append(":");
    push_signed_decimal(&mut out, dst);
    out.append(":");
    push_signed_decimal(&mut out, rank);
    out
}

/// The key prefix under which the edges out of `src` of one type, or of every
/// type for `*`, are stored.
pub open spec fn edge_scan_prefix_text(space: Seq<char>, src: i64, edge_type: Seq<char>) -> Seq<char> {
    if edge_type == "*"@ {
        space + ":edge:"@ + signed_decimal(src as int) + ":"@
    } else {
        space + ":edge:"@ + signed_decimal(src as int) + ":"@ + edge_type + ":"@
    }
}

/// Builds the scan prefix of the edges out of `src` (see
/// [`edge_scan_prefix_text`]).
pub fn edge_scan_prefix(space: &str, src: i64, edge_type: &str) -> (r: String)
    ensures
        r@ == edge_scan_prefix_text(space@, src, edge_type@),
{
    let mut out = String::from_str(space);
    out.append(":edge:");
    push_signed_decimal(&mut out, src);
    out.append(":");
    if !crate::text::str_is(edge_type, "*") {
        out.append(edge_type);
        out.append(":");
    }
    out
}

/// Splitting at a separator splits each side of it independently.
pub proof fn lemma_split_on_concat(a: Seq<char>, b: Seq<char>, sep: char)
    ensures
        split_on(a + seq![sep] + b, sep) == split_on(a, sep) + split_on(b, sep),
    decreases b.len(),
{
    lemma_split_on_nonempty(a, sep);
    if b.len() == 0 {
        assert(a + seq![sep] + b =~= a.push(sep));
        assert((a + seq![sep] + b).drop_last() =~= a);
        assert(split_on(b, sep) =~= seq![Seq::<char>::empty()]);
    } else {
        let x = a + seq![sep] + b;
        assert(x.drop_last() =~= a + seq![sep] + b.drop_last());
        lemma_split_on_concat(a, b.drop_last(), sep);
        lemma_split_on_nonempty(b.drop_last(), sep);
        let left = split_on(a, sep);
        let right = split_on(b.drop_last(), sep);
        if b.last() == sep {
            assert((left + right).push(Seq::empty()) =~= left + right.push(Seq::empty()));
        } else {
            let lr = left + right;
            assert(lr.update(lr.len() - 1, lr.last().push(b.last())) =~= left + right.update(
                right.len() - 1,
                right.last().push(b.last()),
            ));
        }
    }
}

/// A text without the separator is a single field.
pub proof fn lemma_split_on_single(a: Seq<char>, sep: char)
    requires
        forall|i: int| 0 <= i < a.len() ==> #[trigger] a[i] != sep,
    ensures
        split_on(a, sep) == seq![a],
    decreases a.len(),
{
    if a.len() > 0 {
        lemma_split_on_single(a.drop_last(), sep);
        assert(a.drop_last().push(a.last()) =~= a);
    } else {
        assert(a =~= Seq::<char>::empty());
    }
}

proof fn lemma_digit_char(k: int)
    requires
        0 <= k < 10,
    ensures
        is_digit(digit_char(k)),
        digit_value(digit_char(k)) == k,
{
}

proof fn lemma_decimal_digits(n: nat)
    ensures
        all_digits(decimal(n)),
        digits_value(decimal(n)) == n,
    decreases n,
{
    lemma_digit_char((n % 10) as int);
    if n < 10 {
        assert(decimal(n).drop_last() =~= Seq::<char>::empty());
        assert(digits_value(decimal(n)) == digits_value(decimal(n).drop_last()) * 10 + digit_value(
            decimal(n).last(),
        ));
        assert(n % 10 == n);
    } else {
        lemma_decimal_digits(n / 10);
        let d = decimal(n);
        assert(d.drop_last() =~= decimal(n / 10));
        assert(digits_value(d) == digits_value(d.drop_last()) * 10 + digit_value(d.last()));
        assert(n == (n / 10) * 10 + n % 10);
        assert forall|i: int| 0 <= i < d.len() implies is_digit(#[trigger] d[i]) by {
            if i < d.len() - 1 {
                assert(d[i] == decimal(n / 10)[i]);
            }
        }
    }
}

proof fn lemma_signed_decimal_parses(v: i64)
    ensures
        parse_i64_spec(signed_decimal(v as int)) == Some(v),
        forall|i: int| 0 <= i < signed_decimal(v as int).len() ==> #[trigger] signed_decimal(v as int)[i] != ':',
{
    let m: nat = if v < 0 { (-v) as nat } else { v as nat };
    lemma_decimal_digits(m);
    let s = signed_decimal(v as int);
    if v < 0 {
        assert(s.drop_first() =~= decimal(m));
        assert(s[0] == '-');
        assert forall|i: int| 0 <= i < s.len() implies #[trigger] s[i] != ':' by {
            if i > 0 {
                assert(s[i] == decimal(m)[i - 1]);
                assert(is_digit(decimal(m)[i - 1]));
            }
        }
    } else {
        assert(is_digit(s[0]));
        assert forall|i: int| 0 <= i < s.len() implies #[trigger] s[i] != ':' by {
            assert(is_digit(s[i]));
        }
    }
}

/// Reading a vertex key gives back the vid it was built from, whatever the
/// space is called: the vid is what follows the last `:`.
pub proof fn lemma_vertex_key_vid(space: Seq<char>, vid: i64)
    ensures
        vertex_key_vid_spec(encode_utf8(vertex_key_text(space, vid))) == Some(vid),
{
    reveal_strlit(":vertex:");
    let key = vertex_key_text(space, vid);
    encode_utf8_valid_utf8(key);
    encode_utf8_decode_utf8(key);
    let digits = signed_decimal(vid as int);
    lemma_signed_decimal_parses(vid);
    let head = space + ":vertex"@;
    reveal_strlit(":vertex");
    assert(key =~= head + seq![':'] + digits);
    lemma_split_on_concat(head, digits, ':');
    lemma_split_on_single(digits, ':');
    lemma_split_on_nonempty(head, ':');
}

/// Reading an edge key gives back its edge type, provided neither the space
/// nor the type name contains `:`.
pub proof fn lemma_edge_key_type(space: Seq<char>, src: i64, edge_type: Seq<char>, dst: i64, rank: i64)
    requires
        forall|i: int| 0 <= i < space.len() ==> #[trigger] space[i] != ':',
        forall|i: int| 0 <= i < edge_type.len() ==> #[trigger] edge_type[i] != ':',
    ensures
        edge_type_spec(encode_utf8(edge_key_text(space, src, edge_type, dst, rank))) == Some(edge_type),
{
    reveal_strlit(":edge:");
    reveal_strlit(":");
    reveal_strlit("edge");
    let key = edge_key_text(space, src, edge_type, dst, rank);
    encode_utf8_valid_utf8(key);
    encode_utf8_decode_utf8(key);
    let s1 = signed_decimal(src as int);
    let s2 = signed_decimal(dst as int);
    let s3 = signed_decimal(rank as int);
    lemma_signed_decimal_parses(src);
    lemma_signed_decimal_parses(dst);
    lemma_signed_decimal_parses(rank);
    let e = "edge"@;
    assert forall|i: int| 0 <= i < e.len() implies #[trigger] e[i] != ':' by {}
    let t3 = s2 + seq![':'] + s3;
    let t2 = edge_type + seq![':'] + t3;
    let t1 = s1 + seq![':'] + t2;
    let t0 = e + seq![':'] + t1;
    assert(key =~= space + seq![':'] + t0);
    lemma_split_on_concat(space, t0, ':');
    lemma_split_on_concat(e, t1, ':');
    lemma_split_on_concat(s1, t2, ':');
    lemma_split_on_concat(edge_type, t3, ':');
    lemma_split_on_single(space, ':');
    lemma_split_on_single(e, ':');
    lemma_split_on_single(s1, ':');
    lemma_split_on_single(edge_type, ':');
    lemma_split_on_nonempty(t3, ':');
    let f = split_on(key, ':');
    assert(f == seq![space] + (seq![e] + (seq![s1] + (seq![edge_type] + split_on(t3, ':')))));
    assert(f[3] == edge_type);
}

} // verus!
