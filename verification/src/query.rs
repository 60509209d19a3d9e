//! Building a DNS query message with a single question, in the wire format
//! that `dns_parser::Builder` writes.
use vstd::prelude::*;
use vstd::string::StringSliceAdditionalSpecFns;

verus! {

/// Query type code of an IPv4 address query (`A`).
pub const QTYPE_A: u16 = 1;

/// Query class code that matches any class (`*`).
pub const QCLASS_ANY: u16 = 255;

/// The byte that separates the labels of a domain name.
pub const LABEL_DOT: u8 = 0x2e;

/// The longest label the encoder accepts is one byte shorter than this.
pub const LABEL_LIMIT: usize = 63;

/// Most significant byte first.
pub open spec fn be16(v: u16) -> Seq<u8> {
    seq![(v / 256) as u8, (v % 256) as u8]
}

/// The 12-byte header of a standard query that holds one question:
/// identifier, flags (only "recursion desired" may be set), one question,
/// no answer, authority or additional records.
pub open spec fn query_header(id: u16, recursion: bool) -> Seq<u8> {
    be16(id) + seq![if recursion { 1u8 } else { 0u8 }, 0u8] + seq![0u8, 1u8] + seq![
        0u8,
        0u8,
        0u8,
        0u8,
        0u8,
        0u8,
    ]
}

/// No dot between positions `i` (included) and `j` (excluded) of `name`.
pub open spec fn dot_free(name: Seq<u8>, i: int, j: int) -> bool {
    forall|k: int| i <= k < j ==> name[k] != LABEL_DOT
}

/// Every label of the dotted name (every stretch between dots) is shorter
/// than `LABEL_LIMIT` bytes.
pub open spec fn labels_fit(name: Seq<u8>) -> bool {
    forall|i: int, j: int|
        0 <= i <= j <= name.len() && #[trigger] dot_free(name, i, j) ==> j - i < LABEL_LIMIT
}

/// The length-prefixed labels of the rest of a dotted name, `part` being the
/// label read so far.
pub open spec fn labels_from(rest: Seq<u8>, part: Seq<u8>) -> Seq<u8>
    decreases rest.len(),
{
    if rest.len() == 0 {
        seq![part.len() as u8] + part
    } else if rest[0] == LABEL_DOT {
        seq![part.len() as u8] + part + labels_from(rest.drop_first(), seq![])
    } else {
        labels_from(rest.drop_first(), part.push(rest[0]))
    }
}

/// A dotted name on the wire: each dot-separated label preceded by its
/// length, then a zero byte.
pub open spec fn encode_name(name: Seq<u8>) -> Seq<u8> {
    labels_from(name, seq![]) + seq![0u8]
}

/// The query class field: the class code, with the top bit set when a
/// unicast answer is preferred.
pub open spec fn class_field(qclass: u16, prefer_unicast: bool) -> u16 {
    if prefer_unicast {
        qclass | 0x8000u16
    } else {
        qclass
    }
}

/// The message before the size check: header, question name, type, class.
pub open spec fn query_body(
    id: u16,
    recursion: bool,
    name: Seq<u8>,
    prefer_unicast: bool,
    qtype: u16,
    qclass: u16,
) -> Seq<u8> {
    query_header(id, recursion) + encode_name(name) + be16(qtype) + be16(
        class_field(qclass, prefer_unicast),
    )
}

/// Whether a message is over the 512 bytes that a UDP DNS message may hold.
pub open spec fn oversized(body: Seq<u8>) -> bool {
    body.len() > 512
}

/// The message as handed out when it is oversized: both flag bytes are
/// cleared.
pub open spec fn clear_flags(body: Seq<u8>) -> Seq<u8> {
    body.update(2, 0u8).update(3, 0u8)
}

/// The bytes of a built query, whichever way it is handed out.
pub open spec fn built_query(
    id: u16,
    recursion: bool,
    name: Seq<u8>,
    prefer_unicast: bool,
    qtype: u16,
    qclass: u16,
) -> Seq<u8> {
    let body = query_body(id, recursion, name, prefer_unicast, qtype, qclass);
    if oversized(body) {
        clear_flags(body)
    } else {
        body
    }
}

/// A name of fewer than `LABEL_LIMIT` bytes has no label that is too long.
pub proof fn lemma_short_name_fits(name: Seq<u8>)
    requires
        name.len() < LABEL_LIMIT,
    ensures
        labels_fit(name),
{
}

/// The labels of the rest of a name take one byte more than the rest and
/// the label read so far.
pub proof fn lemma_labels_len(rest: Seq<u8>, part: Seq<u8>)
    ensures
        labels_from(rest, part).len() == rest.len() + part.len() + 1,
    decreases rest.len(),
{
    if rest.len() > 0 {
        if rest[0] == LABEL_DOT {
            lemma_labels_len(rest.drop_first(), seq![]);
        } else {
            lemma_labels_len(rest.drop_first(), part.push(rest[0]));
        }
    }
}

/// `name[i..j]` is one whole label of the dotted name: it holds no dot and is
/// bounded by dots or by the ends of the name.
pub open spec fn is_label(name: Seq<u8>, i: int, j: int) -> bool {
    &&& 0 <= i <= j <= name.len()
    &&& (i == 0 || name[i - 1] == LABEL_DOT)
    &&& (j == name.len() || name[j] == LABEL_DOT)
    &&& dot_free(name, i, j)
}

/// Where the bytes of the labels of the rest of a name land, `part` being
/// the label read so far: first the length of the current label, then
/// `part`, then each byte of `rest` one place further on, every dot being
/// replaced by the length of the label that follows it.
pub proof fn lemma_labels_index(rest: Seq<u8>, part: Seq<u8>)
    ensures
        labels_from(rest, part).len() == rest.len() + part.len() + 1,
        forall|e: int|
            0 <= e <= rest.len() && #[trigger] dot_free(rest, 0, e) && (e == rest.len()
                || rest[e] == LABEL_DOT) ==> labels_from(rest, part)[0] == (part.len() + e) as u8,
        forall|k: int| 0 <= k < part.len() ==> #[trigger] labels_from(rest, part)[1 + k] == part[k],
        forall|k: int|
            0 <= k < rest.len() && rest[k] != LABEL_DOT ==> #[trigger] labels_from(rest, part)[1
                + part.len() + k] == rest[k],
        forall|k: int, e: int|
            0 <= k < e <= rest.len() && rest[k] == LABEL_DOT && #[trigger] dot_free(
                rest,
                k + 1,
                e,
            ) && (e == rest.len() || rest[e] == LABEL_DOT) ==> labels_from(rest, part)[1
                + part.len() + k] == (e - k - 1) as u8,
    decreases rest.len(),
{
    lemma_labels_len(rest, part);
    let s = labels_from(rest, part);
    let p = part.len();
    if rest.len() == 0 {
        assert forall|e: int|
            0 <= e <= rest.len() && #[trigger] dot_free(rest, 0, e) && (e == rest.len()
                || rest[e] == LABEL_DOT) implies s[0] == (p + e) as u8 by {
            assert(e == 0);
        }
        assert forall|k: int| 0 <= k < p implies #[trigger] s[1 + k] == part[k] by {
            assert(s == seq![p as u8] + part);
        }
    } else {
        let rest2 = rest.drop_first();
        if rest[0] == LABEL_DOT {
            let t = labels_from(rest2, seq![]);
            lemma_labels_index(rest2, seq![]);
            assert(s == seq![p as u8] + part + t);
            assert forall|e: int|
                0 <= e <= rest.len() && #[trigger] dot_free(rest, 0, e) && (e == rest.len()
                    || rest[e] == LABEL_DOT) implies s[0] == (p + e) as u8 by {
                if e > 0 {
                    assert(rest[0] != LABEL_DOT);
                }
            }
            assert forall|k: int| 0 <= k < p implies #[trigger] s[1 + k] == part[k] by {}
            assert forall|k: int|
                0 <= k < rest.len() && rest[k] != LABEL_DOT implies #[trigger] s[1 + p + k]
                == rest[k] by {
                assert(k >= 1);
                assert(s[1 + p + k] == t[k]);
                assert(rest2[k - 1] == rest[k]);
                assert(t[1 + 0 + (k - 1)] == rest2[k - 1]);
            }
            assert forall|k: int, e: int|
                0 <= k < e <= rest.len() && rest[k] == LABEL_DOT && #[trigger] dot_free(
                    rest,
                    k + 1,
                    e,
                ) && (e == rest.len() || rest[e] == LABEL_DOT) implies s[1 + p + k] == (e - k
                - 1) as u8 by {
                assert(s[1 + p + k] == t[k]);
                if k == 0 {
                    assert(dot_free(rest2, 0, e - 1)) by {
                        assert forall|m: int| 0 <= m < e - 1 implies rest2[m] != LABEL_DOT by {
                            assert(rest2[m] == rest[m + 1]);
                        }
                    }
                    assert(e - 1 == rest2.len() || rest2[e - 1] == LABEL_DOT);
                } else {
                    assert(rest2[k - 1] == LABEL_DOT);
                    assert(dot_free(rest2, k, e - 1)) by {
                        assert forall|m: int| k <= m < e - 1 implies rest2[m] != LABEL_DOT by {
                            assert(rest2[m] == rest[m + 1]);
                        }
                    }
                    assert(e - 1 == rest2.len() || rest2[e - 1] == LABEL_DOT);
                    assert(t[1 + 0 + (k - 1)] == (e - 1 - (k - 1) - 1) as u8);
                }
            }
        } else {
            let part2 = part.push(rest[0]);
            lemma_labels_index(rest2, part2);
            assert(s == labels_from(rest2, part2));
            assert forall|e: int|
                0 <= e <= rest.len() && #[trigger] dot_free(rest, 0, e) && (e == rest.len()
                    || rest[e] == LABEL_DOT) implies s[0] == (p + e) as u8 by {
                assert(e >= 1);
                assert(dot_free(rest2, 0, e - 1)) by {
                    assert forall|m: int| 0 <= m < e - 1 implies rest2[m] != LABEL_DOT by {
                        assert(rest2[m] == rest[m + 1]);
                    }
                }
                assert(e - 1 == rest2.len() || rest2[e - 1] == LABEL_DOT);
            }
            assert forall|k: int| 0 <= k < p implies #[trigger] s[1 + k] == part[k] by {
                assert(part2[k] == part[k]);
            }
            assert forall|k: int|
                0 <= k < rest.len() && rest[k] != LABEL_DOT implies #[trigger] s[1 + p + k]
                == rest[k] by {
                if k == 0 {
                    assert(part2[p as int] == rest[0]);
                } else {
                    assert(rest2[k - 1] == rest[k]);
                    assert(s[1 + (p + 1) + (k - 1)] == rest2[k - 1]);
                }
            }
            assert forall|k: int, e: int|
                0 <= k < e <= rest.len() && rest[k] == LABEL_DOT && #[trigger] dot_free(
                    rest,
                    k + 1,
                    e,
                ) && (e == rest.len() || rest[e] == LABEL_DOT) implies s[1 + p + k] == (e - k
                - 1) as u8 by {
                assert(k >= 1);
                assert(rest2[k - 1] == LABEL_DOT);
                assert(dot_free(rest2, k, e - 1)) by {
                    assert forall|m: int| k <= m < e - 1 implies rest2[m] != LABEL_DOT by {
                        assert(rest2[m] == rest[m + 1]);
                    }
                }
                assert(e - 1 == rest2.len() || rest2[e - 1] == LABEL_DOT);
                assert(s[1 + (p + 1) + (k - 1)] == (e - 1 - (k - 1) - 1) as u8);
            }
        }
    }
}

/// On the wire, a name takes two bytes more than its dotted form: the byte
/// before each label is that label's length, every other byte of the name
/// follows one place further on, and a zero byte ends it.
pub proof fn lemma_encode_name_layout(name: Seq<u8>)
    requires
        labels_fit(name),
    ensures
        encode_name(name).len() == name.len() + 2,
        forall|i: int, j: int| #[trigger] is_label(name, i, j) ==> encode_name(name)[i] == j - i,
        forall|k: int|
            0 <= k < name.len() && name[k] != LABEL_DOT ==> #[trigger] encode_name(name)[k + 1]
                == name[k],
        encode_name(name)[name.len() as int + 1] == 0,
{
    lemma_labels_index(name, seq![]);
    let l = labels_from(name, seq![]);
    let e = encode_name(name);
    assert(e == l + seq![0u8]);
    assert forall|i: int, j: int| #[trigger] is_label(name, i, j) implies e[i] == j - i by {
        assert(j - i < LABEL_LIMIT);
        if i == 0 {
            assert(dot_free(name, 0, j));
            assert(l[0] == (0 + j) as u8);
        } else {
            assert(dot_free(name, (i - 1) + 1, j));
            assert(l[1 + 0 + (i - 1)] == (j - (i - 1) - 1) as u8);
        }
    }
    assert forall|k: int| 0 <= k < name.len() && name[k] != LABEL_DOT implies #[trigger] e[k
        + 1] == name[k] by {
        assert(l[1 + 0 + k] == name[k]);
    }
}

/// The bytes of a single-question query message, field by field: the
/// identifier (most significant byte first), the flag bytes (only
/// "recursion desired" may be set, and none when the message was truncated),
/// one question and no other record, the name with a length byte before
/// each label and a closing zero, the query type, and the class, whose top
/// bit asks for a unicast answer.
pub open spec fn wire_layout(
    d: Seq<u8>,
    id: u16,
    recursion: bool,
    name: Seq<u8>,
    prefer_unicast: bool,
    qtype: u16,
    qclass: u16,
    truncated: bool,
) -> bool {
    let n = name.len() as int;
    &&& d.len() == n + 18
    &&& d[0] * 256 + d[1] == id
    &&& d[2] == (if recursion && !truncated { 1u8 } else { 0u8 })
    &&& d[3] == 0
    &&& d[4] == 0 && d[5] == 1
    &&& d[6] == 0 && d[7] == 0 && d[8] == 0 && d[9] == 0 && d[10] == 0 && d[11] == 0
    &&& forall|i: int, j: int| #[trigger] is_label(name, i, j) ==> d[12 + i] == j - i
    &&& forall|k: int| 0 <= k < n && name[k] != LABEL_DOT ==> #[trigger] d[13 + k] == name[k]
    &&& d[13 + n] == 0
    &&& d[14 + n] * 256 + d[15 + n] == qtype
    &&& (d[16 + n] * 256 + d[17 + n]) % 32768 == qclass % 32768
    &&& (d[16 + n] >= 128 <==> (prefer_unicast || qclass >= 32768))
}

/// A built query has exactly the layout of `wire_layout`, and is truncated
/// (handed out as `Err`) exactly when it is over 512 bytes.
pub proof fn lemma_query_layout(
    id: u16,
    recursion: bool,
    name: Seq<u8>,
    prefer_unicast: bool,
    qtype: u16,
    qclass: u16,
)
    requires
        labels_fit(name),
    ensures
        oversized(query_body(id, recursion, name, prefer_unicast, qtype, qclass)) <==> name.len()
            + 18 > 512,
        wire_layout(
            query_body(id, recursion, name, prefer_unicast, qtype, qclass),
            id,
            recursion,
            name,
            prefer_unicast,
            qtype,
            qclass,
            false,
        ),
        wire_layout(
            built_query(id, recursion, name, prefer_unicast, qtype, qclass),
            id,
            recursion,
            name,
            prefer_unicast,
            qtype,
            qclass,
            name.len() + 18 > 512,
        ),
{
    lemma_encode_name_layout(name);
    let n = name.len() as int;
    let h = query_header(id, recursion);
    let e = encode_name(name);
    let cf = class_field(qclass, prefer_unicast);
    let b = query_body(id, recursion, name, prefer_unicast, qtype, qclass);
    assert(b == h + e + be16(qtype) + be16(cf));
    assert(b.len() == n + 18);
    assert(b[0] == (id / 256) as u8 && b[1] == (id % 256) as u8);
    assert(b[14 + n] == (qtype / 256) as u8 && b[15 + n] == (qtype % 256) as u8);
    assert(b[16 + n] == (cf / 256) as u8 && b[17 + n] == (cf % 256) as u8);
    assert forall|i: int, j: int| #[trigger] is_label(name, i, j) implies b[12 + i] == j - i by {
        assert(e[i] == j - i);
        assert(b[12 + i] == e[i]);
    }
    assert forall|k: int| 0 <= k < n && name[k] != LABEL_DOT implies #[trigger] b[13 + k]
        == name[k] by {
        assert(b[13 + k] == e[k + 1]);
    }
    assert(b[13 + n] == e[n + 1]);
    assert((cf / 256) * 256 + cf % 256 == cf);
    if prefer_unicast {
        assert(cf == qclass | 0x8000u16);
        assert((qclass | 0x8000u16) % 32768 == qclass % 32768 && (qclass | 0x8000u16) >= 32768)
            by (bit_vector);
    }
    let d = built_query(id, recursion, name, prefer_unicast, qtype, qclass);
    if oversized(b) {
        assert(d == clear_flags(b));
    }
}

/// A single-question query is 18 bytes longer than its name: 12 header
/// bytes, one length byte more than the name, the closing zero byte, and
/// two bytes each for type and class.
pub proof fn lemma_query_len(
    id: u16,
    recursion: bool,
    name: Seq<u8>,
    prefer_unicast: bool,
    qtype: u16,
    qclass: u16,
)
    ensures
        query_body(id, recursion, name, prefer_unicast, qtype, qclass).len() == name.len() + 18,
        built_query(id, recursion, name, prefer_unicast, qtype, qclass).len() == name.len() + 18,
{
    lemma_labels_len(name, seq![]);
}

fn push_be16(buf: &mut Vec<u8>, v: u16)
    ensures
        final(buf)@ == old(buf)@ + be16(v),
{
    buf.push((v / 256) as u8);
    buf.push((v % 256) as u8);
}

/// Appends `src[start..end]`.
fn push_range(buf: &mut Vec<u8>, src: &[u8], start: usize, end: usize)
    requires
        start <= end <= src@.len(),
    ensures
        final(buf)@ == old(buf)@ + src@.subrange(start as int, end as int),
{
    let mut k: usize = start;
    while k < end
        invariant
            start <= k <= end <= src@.len(),
            buf@ == old(buf)@ + src@.subrange(start as int, k as int),
        decreases end - k,
    {
        buf.push(src[k]);
        assert(src@.subrange(start as int, k + 1) =~= src@.subrange(start as int, k as int).push(
            src@[k as int],
        ));
        k = k + 1;
    }
}

/// Appends the wire form of a dotted name.
fn push_name(buf: &mut Vec<u8>, name: &[u8])
    requires
        labels_fit(name@),
    ensures
        final(buf)@ == old(buf)@ + encode_name(name@),
{
    let ghost whole = old(buf)@ + labels_from(name@, seq![]);
    let mut start: usize = 0;
    let mut i: usize = 0;
    assert(name@.skip(0) =~= name@);
    assert(name@.subrange(0, 0) =~= Seq::<u8>::empty());
    while i < name.len()
        invariant
            start <= i <= name@.len(),
            labels_fit(name@),
            dot_free(name@, start as int, i as int),
            buf@ + labels_from(name@.skip(i as int), name@.subrange(start as int, i as int))
                == whole,
        decreases name@.len() - i,
    {
        let ghost part = name@.subrange(start as int, i as int);
        assert(name@.skip(i as int).drop_first() =~= name@.skip(i + 1));
        assert(name@.skip(i as int)[0] == name@[i as int]);
        if name[i] == LABEL_DOT {
            assert(i - start < LABEL_LIMIT);
            buf.push((i - start) as u8);
            push_range(buf, name, start, i);
            assert(buf@ + labels_from(name@.skip(i + 1), seq![]) =~= whole);
            start = i + 1;
            assert(name@.subrange(start as int, start as int) =~= Seq::<u8>::empty());
        } else {
            assert(part.push(name@[i as int]) =~= name@.subrange(start as int, i + 1));
        }
        i = i + 1;
    }
    assert(i - start < LABEL_LIMIT);
    assert(name@.skip(i as int) =~= Seq::<u8>::empty());
    buf.push((i - start) as u8);
    push_range(buf, name, start, i);
    assert(buf@ =~= whole);
    buf.push(0u8);
}

/// Builds a query message with the single question (`qname`, `qtype`,
/// `qclass`), as `dns_parser::Builder::new_query`, `add_question` and
/// `build` do. A message over 512 bytes comes back as `Err`, with its flag
/// bytes cleared; any other as `Ok`.
pub fn build_query(
    id: u16,
    recursion: bool,
    qname: &str,
    prefer_unicast: bool,
    qtype: u16,
    qclass: u16,
) -> (r: Result<Vec<u8>, Vec<u8>>)
    requires
        labels_fit(qname.spec_bytes()),
    ensures
        ({
            let body = query_body(id, recursion, qname.spec_bytes(), prefer_unicast, qtype, qclass);
            match r {
                Ok(data) => !oversized(body) && data@ == body,
                Err(data) => oversized(body) && data@ == clear_flags(body),
            }
        }),
        r is Ok <==> qname.spec_bytes().len() + 18 <= 512,
        match r {
            Ok(data) => wire_layout(
                data@,
                id,
                recursion,
                qname.spec_bytes(),
                prefer_unicast,
                qtype,
                qclass,
                false,
            ),
            Err(data) => wire_layout(
                data@,
                id,
                recursion,
                qname.spec_bytes(),
                prefer_unicast,
                qtype,
                qclass,
                true,
            ),
        },
{
    proof {
        lemma_query_layout(id, recursion, qname.spec_bytes(), prefer_unicast, qtype, qclass);
    }
    let mut buf: Vec<u8> = Vec::new();
    push_be16(&mut buf, id);
    buf.push(if recursion { 1u8 } else { 0u8 });
    buf.push(0u8);
    buf.push(0u8);
    buf.push(1u8);
    buf.push(0u8);
    buf.push(0u8);
    buf.push(0u8);
    buf.push(0u8);
    buf.push(0u8);
    buf.push(0u8);
    assert(buf@ =~= query_header(id, recursion));
    push_name(&mut buf, qname.as_bytes());
    push_be16(&mut buf, qtype);
    let class: u16 = if prefer_unicast { qclass | 0x8000u16 } else { qclass };
    push_be16(&mut buf, class);
    assert(buf@ =~= query_body(id, recursion, qname.spec_bytes(), prefer_unicast, qtype, qclass));
    if buf.len() > 512 {
        buf.set(2, 0u8);
        buf.set(3, 0u8);
        Err(buf)
    } else {
        Ok(buf)
    }
}

/// The query for the IPv4 addresses of google.com in any class, with
/// identifier 0 and no recursion, used to exercise the proxy without a
/// client.
pub fn mock_query() -> (q: Vec<u8>)
    ensures
        q@ == built_query(0, false, "google.com".spec_bytes(), false, QTYPE_A, QCLASS_ANY),
        q@.len() == 28,
{
    let name = "google.com";
    proof {
        reveal_strlit("google.com");
        assert(vstd::utf8::is_ascii_chars(name@));
        vstd::utf8::is_ascii_chars_encode_utf8(name@);
        lemma_short_name_fits(name.spec_bytes());
        lemma_query_len(0, false, name.spec_bytes(), false, QTYPE_A, QCLASS_ANY);
    }
    match build_query(0, false, name, false, QTYPE_A, QCLASS_ANY) {
        Ok(data) => data,
        Err(data) => data,
    }
}

} // verus!
