//! Framing of `multipart/form-data` bodies.

use crate::network::request::MultipartPart;
use crate::text::{bytes_outcome, chars_of, join2, join3, push_bytes, push_text};
use crate::trusted::{base64_bytes, base64_decode};
use vstd::prelude::*;
use vstd::utf8::encode_utf8;

verus! {

/// A name made safe for a quoted header parameter: line breaks dropped, double
/// quotes turned into single ones.
pub open spec fn part_token(s: Seq<char>) -> Seq<char>
    decreases s.len(),
{
    if s.len() == 0 {
        Seq::empty()
    } else {
        let before = part_token(s.drop_last());
        let c = s.last();
        if c == '\r' || c == '\n' {
            before
        } else if c == '"' {
            before.push('\'')
        } else {
            before.push(c)
        }
    }
}

/// No name can close its quotes or start a new line.
pub proof fn lemma_part_token_safe(s: Seq<char>)
    ensures
        forall|i: int|
            0 <= i < part_token(s).len() ==> (#[trigger] part_token(s)[i]) != '"' && part_token(
                s,
            )[i] != '\r' && part_token(s)[i] != '\n',
    decreases s.len(),
{
    if s.len() > 0 {
        lemma_part_token_safe(s.drop_last());
        let before = part_token(s.drop_last());
        let all = part_token(s);
        assert forall|i: int| 0 <= i < all.len() implies (#[trigger] all[i]) != '"' && all[i]
            != '\r' && all[i] != '\n' by {
            if i < before.len() {
            }
        }
    }
}

/// A name without line breaks and double quotes stays as it is.
pub proof fn lemma_plain_part_token(s: Seq<char>)
    requires
        forall|i: int|
            0 <= i < s.len() ==> (#[trigger] s[i]) != '"' && s[i] != '\r' && s[i] != '\n',
    ensures
        part_token(s) == s,
    decreases s.len(),
{
    if s.len() > 0 {
        lemma_plain_part_token(s.drop_last());
        assert(s.drop_last().push(s.last()) =~= s);
    }
}

/// Computes [`part_token`].
pub fn sanitize_part_token(s: &str) -> (r: String)
    ensures
        r@ == part_token(s@),
{
    let cs = chars_of(s);
    let mut out = String::new();
    let mut i: usize = 0;
    assert(cs@.take(0) =~= Seq::<char>::empty());
    while i < cs.len()
        invariant
            i <= cs.len(),
            out@ == part_token(cs@.take(i as int)),
        decreases cs.len() - i,
    {
        assert(cs@.take(i + 1).drop_last() =~= cs@.take(i as int));
        let c: char = cs[i];
        if c != '\r' && c != '\n' {
            if c == '"' {
                out.push('\'');
            } else {
                out.push(c);
            }
        }
        i += 1;
    }
    assert(cs@.take(cs@.len() as int) =~= cs@);
    out
}

/// The `Content-Type` of a part: its own, or the one that goes with its kind.
pub open spec fn part_content_type(part: MultipartPart) -> Seq<char> {
    match part.content_type {
        Some(t) => t@,
        None => if part.value is Some {
            "text/plain; charset=utf-8"@
        } else {
            "application/octet-stream"@
        },
    }
}

/// The lines that stand before the data of a part.
pub open spec fn part_head(part: MultipartPart, boundary: Seq<char>) -> Seq<char> {
    let disposition = "--"@ + boundary + "\r\nContent-Disposition: form-data; name=\""@
        + part_token(part.name@) + "\""@;
    let named = match part.filename {
        Some(f) => disposition + "; filename=\""@ + part_token(f@) + "\""@,
        None => disposition,
    };
    named + "\r\nContent-Type: "@ + part_content_type(part) + "\r\n\r\n"@
}

/// The data of a part, given what decoding its `file_base64` gave.
pub open spec fn part_data(
    part: MultipartPart,
    decoded: Result<Seq<u8>, Seq<char>>,
) -> Result<Seq<u8>, Seq<char>> {
    if part.value is Some && part.file_base64 is None {
        Ok(encode_utf8(part.value->0@))
    } else if part.value is None && part.file_base64 is Some {
        match decoded {
            Ok(b) => Ok(b),
            Err(e) => Err("invalid multipart file_base64: "@ + e),
        }
    } else {
        Err("each multipart part needs exactly one of value or file_base64"@)
    }
}

/// The first `k` parts on the wire, or the first complaint about one.
pub open spec fn framed(
    parts: Seq<MultipartPart>,
    decoded: Seq<Result<Seq<u8>, Seq<char>>>,
    boundary: Seq<char>,
    k: nat,
) -> Result<Seq<u8>, Seq<char>>
    decreases k,
{
    if k == 0 {
        Ok(Seq::empty())
    } else {
        match framed(parts, decoded, boundary, (k - 1) as nat) {
            Err(e) => Err(e),
            Ok(before) => match part_data(parts[k - 1], decoded[k - 1]) {
                Err(e) => Err(e),
                Ok(data) => Ok(
                    before + encode_utf8(part_head(parts[k - 1], boundary)) + data + encode_utf8(
                        "\r\n"@,
                    ),
                ),
            },
        }
    }
}

/// The whole body on the wire: every part, then the closing boundary.
pub open spec fn multipart_bytes(
    parts: Seq<MultipartPart>,
    decoded: Seq<Result<Seq<u8>, Seq<char>>>,
    boundary: Seq<char>,
) -> Result<Seq<u8>, Seq<char>> {
    match framed(parts, decoded, boundary, parts.len()) {
        Err(e) => Err(e),
        Ok(b) => Ok(b + encode_utf8("--"@ + boundary + "--\r\n"@)),
    }
}

/// Every part is on the wire behind those before it: the boundary, the part's name
/// and file name, its content type, an empty line, and its data as it is.
pub proof fn lemma_every_part_is_on_the_wire(
    parts: Seq<MultipartPart>,
    decoded: Seq<Result<Seq<u8>, Seq<char>>>,
    boundary: Seq<char>,
    i: int,
) -> (around: (Seq<u8>, Seq<u8>))
    requires
        0 <= i < parts.len(),
        multipart_bytes(parts, decoded, boundary) is Ok,
    ensures
        ({
            let part = parts[i];
            let named = match part.filename {
                Some(f) => "\""@ + "; filename=\""@ + part_token(f@) + "\""@,
                None => "\""@,
            };
            let kind = if part.content_type is Some {
                part.content_type->0@
            } else if part.value is Some {
                "text/plain; charset=utf-8"@
            } else {
                "application/octet-stream"@
            };
            let data = if part.value is Some {
                encode_utf8(part.value->0@)
            } else {
                decoded[i]->Ok_0
            };
            multipart_bytes(parts, decoded, boundary) == Ok::<Seq<u8>, Seq<char>>(
                around.0 + encode_utf8(
                    "--"@ + boundary + "\r\nContent-Disposition: form-data; name=\""@ + part_token(
                        part.name@,
                    ) + named + "\r\nContent-Type: "@ + kind + "\r\n\r\n"@,
                ) + data + encode_utf8("\r\n"@) + around.1,
            )
        }),
        framed(parts, decoded, boundary, i as nat) == Ok::<Seq<u8>, Seq<char>>(around.0),
{
    let end = encode_utf8("--"@ + boundary + "--\r\n"@);
    let (pre, post) = lemma_part_inside(parts, decoded, boundary, i, parts.len());
    let part = parts[i];
    let disposition = "--"@ + boundary + "\r\nContent-Disposition: form-data; name=\""@ + part_token(
        part.name@,
    );
    let named = match part.filename {
        Some(f) => "\""@ + "; filename=\""@ + part_token(f@) + "\""@,
        None => "\""@,
    };
    let kind = part_content_type(part);
    assert(part_head(part, boundary) =~= disposition + named + "\r\nContent-Type: "@ + kind
        + "\r\n\r\n"@);
    let data = part_data(part, decoded[i])->Ok_0;
    let one = pre + encode_utf8(part_head(part, boundary)) + data + encode_utf8("\r\n"@);
    assert(one + post + end =~= one + (post + end));
    (pre, post + end)
}

proof fn lemma_part_inside(
    parts: Seq<MultipartPart>,
    decoded: Seq<Result<Seq<u8>, Seq<char>>>,
    boundary: Seq<char>,
    i: int,
    k: nat,
) -> (around: (Seq<u8>, Seq<u8>))
    requires
        0 <= i < k,
        framed(parts, decoded, boundary, k) is Ok,
    ensures
        framed(parts, decoded, boundary, i as nat) == Ok::<Seq<u8>, Seq<char>>(around.0),
        part_data(parts[i], decoded[i]) is Ok,
        framed(parts, decoded, boundary, k)->Ok_0 == around.0 + encode_utf8(
            part_head(parts[i], boundary),
        ) + part_data(parts[i], decoded[i])->Ok_0 + encode_utf8("\r\n"@) + around.1,
    decreases k,
{
    let before = framed(parts, decoded, boundary, (k - 1) as nat)->Ok_0;
    if i == k - 1 {
        let all = framed(parts, decoded, boundary, k)->Ok_0;
        assert(all + Seq::<u8>::empty() =~= all);
        (before, Seq::empty())
    } else {
        let (pre, post) = lemma_part_inside(parts, decoded, boundary, i, (k - 1) as nat);
        let last = encode_utf8(part_head(parts[k - 1], boundary)) + part_data(
            parts[k - 1],
            decoded[k - 1],
        )->Ok_0 + encode_utf8("\r\n"@);
        let one = pre + encode_utf8(part_head(parts[i], boundary)) + part_data(
            parts[i],
            decoded[i],
        )->Ok_0 + encode_utf8("\r\n"@);
        assert(framed(parts, decoded, boundary, k)->Ok_0 =~= one + (post + last));
        (pre, post + last)
    }
}

/// A body can be framed exactly where every part brings either a text or a file that
/// decodes, and not both. It ends with the closing boundary.
pub proof fn lemma_what_can_be_framed(
    parts: Seq<MultipartPart>,
    decoded: Seq<Result<Seq<u8>, Seq<char>>>,
    boundary: Seq<char>,
)
    ensures
        multipart_bytes(parts, decoded, boundary) is Ok <==> forall|i: int|
            #![trigger parts[i]]
            0 <= i < parts.len() ==> (parts[i].value is Some && parts[i].file_base64 is None) || (
            parts[i].value is None && parts[i].file_base64 is Some && decoded[i] is Ok),
        multipart_bytes(parts, decoded, boundary) is Ok ==> ({
            let all = multipart_bytes(parts, decoded, boundary)->Ok_0;
            let end = encode_utf8("--"@ + boundary + "--\r\n"@);
            all.len() >= end.len() && all.skip(all.len() - end.len()) == end
        }),
{
    lemma_framed_ok(parts, decoded, boundary, parts.len());
    if multipart_bytes(parts, decoded, boundary) is Ok {
        let all = multipart_bytes(parts, decoded, boundary)->Ok_0;
        let end = encode_utf8("--"@ + boundary + "--\r\n"@);
        assert(all.skip(all.len() - end.len()) =~= end);
    }
}

proof fn lemma_framed_ok(
    parts: Seq<MultipartPart>,
    decoded: Seq<Result<Seq<u8>, Seq<char>>>,
    boundary: Seq<char>,
    k: nat,
)
    ensures
        framed(parts, decoded, boundary, k) is Ok <==> forall|i: int|
            #![trigger parts[i]]
            0 <= i < k ==> (parts[i].value is Some && parts[i].file_base64 is None) || (
            parts[i].value is None && parts[i].file_base64 is Some && decoded[i] is Ok),
    decreases k,
{
    if k > 0 {
        lemma_framed_ok(parts, decoded, boundary, (k - 1) as nat);
        let last = parts[k - 1];
    }
}

/// What decoders gave, by contents.
pub open spec fn decoded_view(v: Seq<Result<Vec<u8>, String>>) -> Seq<
    Result<Seq<u8>, Seq<char>>,
> {
    Seq::new(
        v.len(),
        |i: int|
            match v[i] {
                Ok(b) => Ok(b@),
                Err(e) => Err(e@),
            },
    )
}

/// Appends one part to `out`, given what decoding its `file_base64` gave.
fn push_part(
    out: &mut Vec<u8>,
    part: &MultipartPart,
    decoded: &Result<Vec<u8>, String>,
    boundary: &str,
) -> (r: Result<(), String>)
    ensures
        ({
            let d = match *decoded {
                Ok(b) => Ok(b@),
                Err(e) => Err(e@),
            };
            match r {
                Ok(_) => part_data(*part, d) is Ok && final(out)@ == old(out)@ + encode_utf8(
                    part_head(*part, boundary@),
                ) + part_data(*part, d)->Ok_0 + encode_utf8("\r\n"@),
                Err(e) => part_data(*part, d) == Err::<Seq<u8>, Seq<char>>(e@),
            }
        }),
{
    let mut head = join3("--", boundary, "\r\nContent-Disposition: form-data; name=\"");
    head.append(sanitize_part_token(part.name.as_str()).as_str());
    head.append("\"");
    if let Some(f) = &part.filename {
        head.append("; filename=\"");
        head.append(sanitize_part_token(f.as_str()).as_str());
        head.append("\"");
    }
    head.append("\r\nContent-Type: ");
    match &part.content_type {
        Some(t) => head.append(t.as_str()),
        None => if part.value.is_some() {
            head.append("text/plain; charset=utf-8")
        } else {
            head.append("application/octet-stream")
        },
    }
    head.append("\r\n\r\n");
    match (&part.value, &part.file_base64) {
        (Some(v), None) => {
            push_text(out, head.as_str());
            push_text(out, v.as_str());
        },
        (None, Some(_)) => match decoded {
            Ok(data) => {
                push_text(out, head.as_str());
                push_bytes(out, data.as_slice());
            },
            Err(e) => {
                return Err(join2("invalid multipart file_base64: ", e.as_str()));
            },
        },
        _ => {
            return Err(
                "each multipart part needs exactly one of value or file_base64".to_owned(),
            );
        },
    }
    push_text(out, "\r\n");
    Ok(())
}

/// Frames `parts` under `boundary`, given what decoding the `file_base64` of
/// each gave.
pub fn frame_multipart(
    parts: &Vec<MultipartPart>,
    decoded: &Vec<Result<Vec<u8>, String>>,
    boundary: &str,
) -> (r: Result<Vec<u8>, String>)
    requires
        decoded@.len() == parts@.len(),
    ensures
        bytes_outcome(r) == multipart_bytes(parts@, decoded_view(decoded@), boundary@),
{
    let mut out: Vec<u8> = Vec::new();
    let mut i: usize = 0;
    while i < parts.len()
        invariant
            i <= parts.len() == decoded.len(),
            framed(parts@, decoded_view(decoded@), boundary@, i as nat) == Ok::<Seq<u8>, Seq<char>>(
                out@,
            ),
        decreases parts.len() - i,
    {
        match push_part(&mut out, &parts[i], &decoded[i], boundary) {
            Ok(_) => {
                i += 1;
            },
            Err(e) => {
                proof {
                    lemma_framed_error_stays(
                        parts@,
                        decoded_view(decoded@),
                        boundary@,
                        (i + 1) as nat,
                        parts@.len(),
                    );
                }
                return Err(e);
            },
        }
    }
    push_text(&mut out, join3("--", boundary, "--\r\n").as_str());
    Ok(out)
}

proof fn lemma_framed_error_stays(
    parts: Seq<MultipartPart>,
    decoded: Seq<Result<Seq<u8>, Seq<char>>>,
    boundary: Seq<char>,
    k: nat,
    n: nat,
)
    requires
        k <= n,
        framed(parts, decoded, boundary, k) is Err,
    ensures
        framed(parts, decoded, boundary, n) == framed(parts, decoded, boundary, k),
    decreases n - k,
{
    if k < n {
        lemma_framed_error_stays(parts, decoded, boundary, k, (n - 1) as nat);
    }
}

/// What base64 makes of the file of each part.
pub open spec fn decodings(parts: Seq<MultipartPart>) -> Seq<Result<Seq<u8>, Seq<char>>> {
    Seq::new(
        parts.len(),
        |i: int|
            match parts[i].file_base64 {
                Some(b) => base64_bytes(b@),
                None => Ok(Seq::empty()),
            },
    )
}

/// What base64 makes of the file of each part.
pub(crate) fn decode_parts(parts: &Vec<MultipartPart>) -> (r: Vec<Result<Vec<u8>, String>>)
    ensures
        decoded_view(r@) == decodings(parts@),
        r@.len() == parts@.len(),
{
    let mut out: Vec<Result<Vec<u8>, String>> = Vec::new();
    let mut i: usize = 0;
    while i < parts.len()
        invariant
            i <= parts.len(),
            out@.len() == i,
            forall|j: int| 0 <= j < i ==> bytes_outcome(#[trigger] out@[j]) == decodings(parts@)[j],
        decreases parts.len() - i,
    {
        let d = match &parts[i].file_base64 {
            Some(b) => base64_decode(b.as_str()),
            None => {
                let empty: Vec<u8> = Vec::new();
                Ok(empty)
            },
        };
        out.push(d);
        i += 1;
    }
    assert forall|j: int| 0 <= j < parts@.len() implies decoded_view(out@)[j] == decodings(
        parts@,
    )[j] by {
    }
    out
}

/// The wire body for `parts` under `boundary`.
pub fn build_multipart_body(parts: &Vec<MultipartPart>, boundary: &str) -> (r: Result<
    Vec<u8>,
    String,
>)
    ensures
        bytes_outcome(r) == multipart_bytes(parts@, decodings(parts@), boundary@),
{
    let decoded = decode_parts(parts);
    frame_multipart(parts, &decoded, boundary)
}

} // verus!
