//! Decoding of data URIs and assembly of triangles from glTF primitives.

use vstd::prelude::*;
use vstd::string::*;
use vstd::std_specs::iter::IteratorSpec;
use crate::types::PatternError;
use crate::mesh::types::Face;

verus! {

pub struct GltfLoader {
    _private: (),
}

/// The characters of a string slice, collected.
fn chars_of(s: &str) -> (v: Vec<char>)
    ensures
        v@ == s@,
{
    broadcast use vstd::string::group_string_axioms;

    let mut it = s.chars();
    let mut v: Vec<char> = Vec::new();
    assert(v@ + it.remaining() =~= s@);
    loop
        invariant
            v@ + it.remaining() == s@,
            it.obeys_prophetic_iter_laws(),
            it.decrease() is Some,
        decreases it.decrease()->0,
    {
        let ghost before = it;
        match it.next() {
            Some(c) => {
                let ghost seen = v@;
                v.push(c);
                assert(v@ + it.remaining() =~= seen + before.remaining());
            },
            None => {
                assert(v@ + Seq::<char>::empty() =~= v@);
                return v;
            },
        }
    }
}

/// Whether `c` is white space (the Unicode White_Space code points).
pub open spec fn is_space(c: char) -> bool {
    let p = c as u32;
    ||| 0x09 <= p <= 0x0D
    ||| p == 0x20
    ||| p == 0x85
    ||| p == 0xA0
    ||| p == 0x1680
    ||| 0x2000 <= p <= 0x200A
    ||| p == 0x2028
    ||| p == 0x2029
    ||| p == 0x202F
    ||| p == 0x205F
    ||| p == 0x3000
}

/// The characters of `s` that are not white space, in order.
pub open spec fn significant(s: Seq<char>) -> Seq<char>
    decreases s.len(),
{
    if s.len() == 0 {
        Seq::empty()
    } else if is_space(s.last()) {
        significant(s.drop_last())
    } else {
        significant(s.drop_last()).push(s.last())
    }
}

/// The six bits that a character of the base64 alphabet stands for.
pub open spec fn sextet_value(c: char) -> Option<u8> {
    let p = c as u32;
    if 'A' as u32 <= p <= 'Z' as u32 {
        Some((p - 'A' as u32) as u8)
    } else if 'a' as u32 <= p <= 'z' as u32 {
        Some((p - 'a' as u32 + 26) as u8)
    } else if '0' as u32 <= p <= '9' as u32 {
        Some((p - '0' as u32 + 52) as u8)
    } else if c == '+' {
        Some(62u8)
    } else if c == '/' {
        Some(63u8)
    } else {
        None
    }
}

/// Number of sextets read from the group of four characters at `i`, counted
/// from place `j` of the group on: reading stops at the end of the input and
/// at a padding sign. There is no count when a character outside the
/// alphabet is met first.
pub open spec fn sextets_in_group(chars: Seq<char>, i: int, j: int) -> Option<nat>
    decreases 4 - j,
{
    if j >= 4 || i + j >= chars.len() {
        Some(0nat)
    } else if chars[i + j] == '=' {
        Some(0nat)
    } else if sextet_value(chars[i + j]) is None {
        None
    } else {
        match sextets_in_group(chars, i, j + 1) {
            Some(n) => Some(n + 1),
            None => None,
        }
    }
}

/// The sextet at place `j` of the group at `i`.
pub open spec fn sextet_at(chars: Seq<char>, i: int, j: int) -> u8 {
    sextet_value(chars[i + j])->0
}

/// The bytes that a group with `count` sextets decodes to.
pub open spec fn group_bytes(chars: Seq<char>, i: int, count: nat) -> Seq<u8> {
    let first = if count >= 2 {
        seq![(sextet_at(chars, i, 0) << 2) | (sextet_at(chars, i, 1) >> 4)]
    } else {
        Seq::empty()
    };
    let second = if count >= 3 {
        seq![(sextet_at(chars, i, 1) << 4) | (sextet_at(chars, i, 2) >> 2)]
    } else {
        Seq::empty()
    };
    let third = if count >= 4 {
        seq![(sextet_at(chars, i, 2) << 6) | sextet_at(chars, i, 3)]
    } else {
        Seq::empty()
    };
    first + second + third
}

/// The bytes that the groups of four characters from `i` on decode to; there
/// are none when a group holds a character outside the alphabet.
pub open spec fn decoded_from(chars: Seq<char>, i: int) -> Option<Seq<u8>>
    decreases
            (if i < chars.len() {
                chars.len() - i
            } else {
                0
            }),
{
    if i < 0 || i >= chars.len() {
        Some(Seq::empty())
    } else {
        let count = sextets_in_group(chars, i, 0);
        let rest = decoded_from(chars, i + 4);
        if count is None || rest is None {
            None
        } else {
            Some(group_bytes(chars, i, count->0) + rest->0)
        }
    }
}

/// What base64 text decodes to: white space is skipped, the rest is read in
/// groups of four characters.
pub open spec fn base64_decoded(text: Seq<char>) -> Option<Seq<u8>> {
    decoded_from(significant(text), 0)
}

/// Whether `c` is white space.
fn is_whitespace_char(c: char) -> (b: bool)
    ensures
        b == is_space(c),
{
    let p = c as u32;
    (0x09 <= p && p <= 0x0D) || p == 0x20 || p == 0x85 || p == 0xA0 || p == 0x1680 || (0x2000 <= p
        && p <= 0x200A) || p == 0x2028 || p == 0x2029 || p == 0x202F || p == 0x205F || p == 0x3000
}

/// The six bits of a character of the base64 alphabet.
fn sextet_of(c: char) -> (r: Option<u8>)
    ensures
        r == sextet_value(c),
{
    let p = c as u32;
    if 'A' as u32 <= p && p <= 'Z' as u32 {
        Some((p - 'A' as u32) as u8)
    } else if 'a' as u32 <= p && p <= 'z' as u32 {
        Some((p - 'a' as u32 + 26) as u8)
    } else if '0' as u32 <= p && p <= '9' as u32 {
        Some((p - '0' as u32 + 52) as u8)
    } else if c == '+' {
        Some(62u8)
    } else if c == '/' {
        Some(63u8)
    } else {
        None
    }
}

/// Drops the white space from `chars[from..]`.
fn without_whitespace(chars: &Vec<char>, from: usize) -> (kept: Vec<char>)
    requires
        from <= chars.len(),
    ensures
        kept@ == significant(chars@.subrange(from as int, chars.len() as int)),
{
    let mut kept: Vec<char> = Vec::new();
    let ghost tail = chars@.subrange(from as int, chars.len() as int);
    let mut i: usize = from;
    while i < chars.len()
        invariant
            from <= i <= chars.len(),
            tail == chars@.subrange(from as int, chars.len() as int),
            kept@ == significant(tail.take(i - from)),
        decreases chars.len() - i,
    {
        proof {
            assert(tail.take(i - from + 1).drop_last() =~= tail.take(i - from));
            assert(tail.take(i - from + 1).last() == chars[i as int]);
        }
        let c = chars[i];
        if !is_whitespace_char(c) {
            kept.push(c);
        }
        i += 1;
    }
    assert(tail.take(chars.len() - from) =~= tail);
    kept
}

/// Decodes the groups of `chars`, which hold no white space.
#[verifier::rlimit(40)]
fn decode_groups(chars: &Vec<char>) -> (r: Option<Vec<u8>>)
    ensures
        r is Some <==> decoded_from(chars@, 0) is Some,
        r matches Some(bytes) ==> bytes@ == decoded_from(chars@, 0)->0,
{
    let mut result: Vec<u8> = Vec::new();
    let n = chars.len();
    let mut i: usize = 0;
    proof {
        if decoded_from(chars@, 0) is Some {
            assert(result@ + decoded_from(chars@, 0)->0 =~= decoded_from(chars@, 0)->0);
        }
    }
    while i < n
        invariant
            n == chars.len(),
            decoded_from(chars@, 0) is Some <==> decoded_from(chars@, i as int) is Some,
            decoded_from(chars@, 0) is Some ==> decoded_from(chars@, 0)->0 == result@
                + decoded_from(chars@, i as int)->0,
        decreases n - i,
    {
        let mut sextet: [u8; 4] = [0u8; 4];
        let mut count: usize = 0;
        let mut j: usize = 0;
        let mut stop = false;
        while j < 4 && !stop
            invariant
                j <= 4,
                count == j,
                i < n,
                n == chars.len(),
                decoded_from(chars@, 0) is Some <==> decoded_from(chars@, i as int) is Some,
                forall|k: int| 0 <= k < j ==> #[trigger] sextet[k] == sextet_at(chars@, i as int, k),
                !stop ==> (sextets_in_group(chars@, i as int, 0) == match sextets_in_group(
                    chars@,
                    i as int,
                    j as int,
                ) {
                    Some(m) => Some(m + j as nat),
                    None => None,
                }),
                stop ==> sextets_in_group(chars@, i as int, 0) == Some(count as nat),
            decreases 4 - j, if stop { 0int } else { 1int },
        {
            if j >= n - i {
                stop = true;
            } else {
                let c = chars[i + j];
                if c == '=' {
                    stop = true;
                } else {
                    match sextet_of(c) {
                        None => {
                            assert(sextets_in_group(chars@, i as int, 0) is None);
                            assert(decoded_from(chars@, i as int) is None);
                            return None;
                        },
                        Some(value) => {
                            sextet[j] = value;
                            count += 1;
                            j += 1;
                        },
                    }
                }
            }
        }
        let ghost before = result@;
        if count >= 2 {
            result.push((sextet[0] << 2) | (sextet[1] >> 4));
        }
        if count >= 3 {
            result.push((sextet[1] << 4) | (sextet[2] >> 2));
        }
        if count >= 4 {
            result.push((sextet[2] << 6) | sextet[3]);
        }
        proof {
            assert(sextets_in_group(chars@, i as int, 0) == Some(count as nat));
            assert(result@ =~= before + group_bytes(chars@, i as int, count as nat));
            if decoded_from(chars@, 0) is Some {
                let rest = decoded_from(chars@, i + 4)->0;
                assert(before + (group_bytes(chars@, i as int, count as nat) + rest) =~= result@
                    + rest);
            }
        }
        if n - i <= 4 {
            i = n;
        } else {
            i += 4;
        }
    }
    Some(result)
}

/// The text after the first comma of a base64 data URI: the URI starts with
/// "data:", a comma follows, and the part between the two names base64.
pub open spec fn data_uri_payload(uri: Seq<char>) -> Option<Seq<char>> {
    if uri.len() >= 5 && uri.take(5) == seq!['d', 'a', 't', 'a', ':'] && exists|p: int|
        is_first_comma(uri, p) {
        let p = choose|p: int| is_first_comma(uri, p);
        if names_base64(uri.subrange(5, p)) {
            Some(uri.subrange(p + 1, uri.len() as int))
        } else {
            None
        }
    } else {
        None
    }
}

/// Detail of the error for a data URI that cannot be decoded: what is wrong
/// with it, first fault first.
pub open spec fn data_uri_complaint(uri: Seq<char>) -> Seq<char> {
    if !(uri.len() >= 5 && uri.take(5) == seq!['d', 'a', 't', 'a', ':']) {
        "Not a data URI"@
    } else if !(exists|p: int| is_first_comma(uri, p)) {
        "Invalid data URI: no comma found"@
    } else if data_uri_payload(uri) is None {
        "Only base64 data URIs are supported"@
    } else {
        "Invalid base64 character"@
    }
}

/// Place `p` holds the first comma after the scheme.
pub open spec fn is_first_comma(uri: Seq<char>, p: int) -> bool {
    &&& 5 <= p < uri.len()
    &&& uri[p] == ','
    &&& forall|q: int| 5 <= q < p ==> uri[q] != ','
}

/// The word "base64" occurs in `metadata`.
pub open spec fn names_base64(metadata: Seq<char>) -> bool {
    exists|k: int| #[trigger] word_at(metadata, k)
}

/// The word "base64" stands at place `k` of `metadata`.
pub open spec fn word_at(metadata: Seq<char>, k: int) -> bool {
    &&& 0 <= k
    &&& k + 6 <= metadata.len()
    &&& metadata[k] == 'b'
    &&& metadata[k + 1] == 'a'
    &&& metadata[k + 2] == 's'
    &&& metadata[k + 3] == 'e'
    &&& metadata[k + 4] == '6'
    &&& metadata[k + 5] == '4'
}

impl GltfLoader {
    pub fn new() -> Self {
        Self { _private: () }
    }

    /// Decodes base64 text. White space is skipped; the rest is read in
    /// groups of four characters, each group up to its padding. Text with a
    /// character outside the alphabet is refused.
    pub fn decode_base64(&self, data: &str) -> (r: Result<Vec<u8>, PatternError>)
        ensures
            r is Ok <==> base64_decoded(data@) is Some,
            r matches Ok(bytes) ==> bytes@ == base64_decoded(data@)->0,
            r matches Err(e) ==> e is IOError && e.detail() == "Invalid base64 character"@,
    {
        let chars = chars_of(data);
        let kept = without_whitespace(&chars, 0);
        assert(chars@.subrange(0, chars.len() as int) =~= data@);
        match decode_groups(&kept) {
            Some(bytes) => Ok(bytes),
            None => Err(PatternError::IOError(String::from_str("Invalid base64 character"))),
        }
    }

    /// Decodes the payload of a base64 data URI of the form
    /// `data:[<mediatype>];base64,<data>`. Anything else is refused.
    #[verifier::rlimit(40)]
    pub fn decode_data_uri(&self, uri: &str) -> (r: Result<Vec<u8>, PatternError>)
        ensures
            r is Ok <==> data_uri_payload(uri@) is Some && base64_decoded(
                data_uri_payload(uri@)->0,
            ) is Some,
            r matches Ok(bytes) ==> bytes@ == base64_decoded(data_uri_payload(uri@)->0)->0,
            r matches Err(e) ==> e is IOError && e.detail() == data_uri_complaint(uri@),
    {
        let chars = chars_of(uri);
        let n = chars.len();
        if n < 5 || chars[0] != 'd' || chars[1] != 'a' || chars[2] != 't' || chars[3] != 'a'
            || chars[4] != ':' {
            proof {
                if uri@.len() >= 5 {
                    assert(uri@.take(5)[0] == uri@[0]);
                    assert(uri@.take(5)[1] == uri@[1]);
                    assert(uri@.take(5)[2] == uri@[2]);
                    assert(uri@.take(5)[3] == uri@[3]);
                    assert(uri@.take(5)[4] == uri@[4]);
                }
            }
            return Err(PatternError::IOError(String::from_str("Not a data URI")));
        }
        assert(uri@.take(5) =~= seq!['d', 'a', 't', 'a', ':']);
        let mut p: usize = 5;
        while p < n && chars[p] != ','
            invariant
                5 <= p <= n,
                n == chars.len(),
                forall|q: int| 5 <= q < p ==> chars[q] != ',',
            decreases n - p,
        {
            p += 1;
        }
        if p >= n {
            assert(forall|q: int| !is_first_comma(uri@, q));
            return Err(PatternError::IOError(String::from_str("Invalid data URI: no comma found")));
        }
        proof {
            assert(is_first_comma(uri@, p as int));
            let chosen = choose|q: int| is_first_comma(uri@, q);
            assert(chosen == p) by {
                if chosen < p {
                    assert(chars[chosen] != ',');
                } else if chosen > p {
                    assert(uri@[p as int] != ',');
                }
            }
        }
        let ghost metadata = uri@.subrange(5, p as int);
        let mut k: usize = 5;
        let mut found = false;
        while !found && p - k >= 6
            invariant
                5 <= k <= p,
                p < n,
                n == chars.len(),
                chars@ == uri@,
                metadata == uri@.subrange(5, p as int),
                forall|h: int| 0 <= h < k - 5 ==> !word_at(metadata, h),
                found ==> names_base64(metadata),
            decreases p - k, if found { 0int } else { 1int },
        {
            if chars[k] == 'b' && chars[k + 1] == 'a' && chars[k + 2] == 's' && chars[k + 3] == 'e'
                && chars[k + 4] == '6' && chars[k + 5] == '4' {
                found = true;
                assert(word_at(metadata, k - 5));
            } else {
                assert(!word_at(metadata, k - 5));
                k += 1;
            }
        }
        if !found {
            assert(!names_base64(metadata)) by {
                assert forall|h: int| !word_at(metadata, h) by {
                    if 0 <= h && h + 6 <= metadata.len() {
                        assert(h < k - 5);
                    }
                }
            }
            return Err(
                PatternError::IOError(String::from_str("Only base64 data URIs are supported")),
            );
        }
        let kept = without_whitespace(&chars, p + 1);
        match decode_groups(&kept) {
            Some(bytes) => Ok(bytes),
            None => Err(PatternError::IOError(String::from_str("Invalid base64 character"))),
        }
    }
}

/// The triangles of an indexed primitive: consecutive triples of the index
/// stream, each index moved on by the number of vertices loaded before. A
/// trailing index or two that do not fill a triple are left out.
pub open spec fn indexed_faces_fit(indices: Seq<u32>, vertex_offset: u32) -> bool {
    forall|i: int| 0 <= i < 3 * (indices.len() / 3) ==> #[trigger] indices[i] + vertex_offset <= u32::MAX
}

impl GltfLoader {
    /// Assembles the triangles of an indexed primitive. There is no result
    /// when an index moved on by `vertex_offset` does not fit 32 bits.
    pub fn faces_from_indices(&self, indices: &Vec<u32>, vertex_offset: u32) -> (r: Option<Vec<Face>>)
        ensures
            r is Some <==> indexed_faces_fit(indices@, vertex_offset),
            r matches Some(faces) ==> {
                &&& faces.len() == indices.len() / 3
                &&& forall|t: int, k: int|
                    0 <= t < faces.len() && 0 <= k < 3 ==> #[trigger] faces[t].indices[k]
                        == indices[3 * t + k] + vertex_offset
            },
    {
        let count = indices.len() / 3;
        let mut faces: Vec<Face> = Vec::new();
        let mut t: usize = 0;
        while t < count
            invariant
                t <= count,
                count == indices.len() / 3,
                faces.len() == t,
                forall|i: int| 0 <= i < 3 * t ==> #[trigger] indices[i] + vertex_offset <= u32::MAX,
                forall|u: int, k: int|
                    0 <= u < t && 0 <= k < 3 ==> #[trigger] faces[u].indices[k] == indices[3 * u + k]
                        + vertex_offset,
            decreases count - t,
        {
            let a = indices[3 * t];
            let b = indices[3 * t + 1];
            let c = indices[3 * t + 2];
            let room = u32::MAX - vertex_offset;
            if a > room || b > room || c > room {
                return None;
            }
            let ghost done = faces@;
            faces.push(
                Face { indices: [a + vertex_offset, b + vertex_offset, c + vertex_offset] },
            );
            proof {
                assert forall|u: int, k: int| 0 <= u < t + 1 && 0 <= k < 3 implies 
                #[trigger] faces[u].indices[k] == indices[3 * u + k] + vertex_offset by {
                    if u < t {
                        assert(faces[u] == done[u]);
                    }
                }
                assert forall|i: int| 0 <= i < 3 * (t + 1) implies #[trigger] indices[i]
                    + vertex_offset <= u32::MAX by {
                    if i >= 3 * t {
                        assert(i == 3 * t || i == 3 * t + 1 || i == 3 * t + 2);
                    }
                }
            }
            t += 1;
        }
        Some(faces)
    }

    /// Assembles the triangles of a primitive without indices: the
    /// `vertex_count` vertices from `start_idx` on, taken three at a time.
    /// There is no result when the vertices cannot be numbered in 32 bits.
    pub fn faces_from_vertex_run(&self, start_idx: usize, vertex_count: usize) -> (r: Option<
        Vec<Face>,
    >)
        ensures
            r is Some <==> start_idx + vertex_count <= u32::MAX,
            r matches Some(faces) ==> {
                &&& faces.len() == vertex_count / 3
                &&& forall|t: int, k: int|
                    0 <= t < faces.len() && 0 <= k < 3 ==> #[trigger] faces[t].indices[k]
                        == start_idx + 3 * t + k
            },
    {
        if start_idx > u32::MAX as usize || vertex_count > u32::MAX as usize - start_idx {
            return None;
        }
        let count = vertex_count / 3;
        let mut faces: Vec<Face> = Vec::new();
        let mut t: usize = 0;
        while t < count
            invariant
                t <= count,
                count == vertex_count / 3,
                start_idx + vertex_count <= u32::MAX,
                faces.len() == t,
                forall|u: int, k: int|
                    0 <= u < t && 0 <= k < 3 ==> #[trigger] faces[u].indices[k] == start_idx + 3 * u
                        + k,
            decreases count - t,
        {
            let first = start_idx + 3 * t;
            let ghost done = faces@;
            faces.push(
                Face { indices: [first as u32, (first + 1) as u32, (first + 2) as u32] },
            );
            proof {
                assert forall|u: int, k: int| 0 <= u < t + 1 && 0 <= k < 3 implies 
                #[trigger] faces[u].indices[k] == start_idx + 3 * u + k by {
                    if u < t {
                        assert(faces[u] == done[u]);
                    }
                }
            }
            t += 1;
        }
        Some(faces)
    }
}

} // verus!
