//! Domain names in DNS wire format (RFC 1035 §3.1, §4.1.4): uncompressed
//! encoding, and decoding that follows compression pointers.
use vstd::prelude::*;
use vstd::utf8::{decode_utf8, encode_utf8, encode_scalar};
use vstd::string::StringSliceAdditionalSpecFns;
use vstd::set_lib::range_set_properties;
use std::collections::HashSet;
use crate::error::{DnsError, protocol_error};
use crate::text::{push_char, push_str, utf8_decode};
use crate::protocol::wire::{copy_range, extend_bytes};

verus! {

broadcast use vstd::std_specs::hash::group_hash_axioms;

/// A length byte whose top two bits are set introduces a compression pointer.
pub open spec fn is_pointer_byte(b: u8) -> bool {
    b >= 192
}

/// The 14-bit message offset a compression pointer refers to.
pub open spec fn pointer_target(b0: u8, b1: u8) -> usize {
    ((b0 as int - 192) * 256 + b1 as int) as usize
}

/// The set of possible pointer targets.
pub open spec fn pointer_space() -> Set<usize> {
    Set::range(0usize, 16384usize)
}

/// The labels of the name at `pos`, following compression pointers; a
/// pointer to a target already in `visited` is a loop. `None` when the name
/// runs past the buffer, a label is not UTF-8, or a pointer loops.
pub open spec fn name_labels(buf: Seq<u8>, pos: int, visited: Set<usize>) -> Option<Seq<Seq<u8>>>
    decreases 16384 - visited.len(), buf.len() - pos,
    when visited.finite() && visited.subset_of(pointer_space()) && 0 <= pos
    via name_labels_decreases
{
    if pos >= buf.len() {
        None
    } else if buf[pos] == 0 {
        Some(Seq::empty())
    } else if is_pointer_byte(buf[pos]) {
        if pos + 1 >= buf.len() {
            None
        } else {
            let ptr = pointer_target(buf[pos], buf[pos + 1]);
            if visited.contains(ptr) {
                None
            } else {
                name_labels(buf, ptr as int, visited.insert(ptr))
            }
        }
    } else {
        let n = buf[pos] as int;
        if pos + 1 + n > buf.len() {
            None
        } else {
            let label = buf.subrange(pos + 1, pos + 1 + n);
            if !vstd::utf8::valid_utf8(label) {
                None
            } else {
                match name_labels(buf, pos + 1 + n, visited) {
                    Some(rest) => Some(seq![label] + rest),
                    None => None,
                }
            }
        }
    }
}

#[via_fn]
proof fn name_labels_decreases(buf: Seq<u8>, pos: int, visited: Set<usize>) {
    if 0 <= pos < buf.len() && buf[pos] != 0 && is_pointer_byte(buf[pos]) && pos + 1 < buf.len() {
        let ptr = pointer_target(buf[pos], buf[pos + 1]);
        if !visited.contains(ptr) && visited.finite() && visited.subset_of(pointer_space()) {
            assert(ptr < 16384);
            range_set_properties::<usize>(0usize, 16384usize);
            vstd::set_lib::lemma_len_subset(visited.insert(ptr), pointer_space());
        }
    }
}

/// The number of bytes the name at `pos` occupies where it is written: up to
/// and including its terminating zero byte or its first compression pointer.
pub open spec fn name_span(buf: Seq<u8>, pos: int) -> int
    decreases buf.len() - pos,
{
    if pos < 0 || pos >= buf.len() {
        0
    } else if buf[pos] == 0 {
        1
    } else if is_pointer_byte(buf[pos]) {
        2
    } else if pos + 1 + buf[pos] > buf.len() {
        0
    } else {
        1 + buf[pos] + name_span(buf, pos + 1 + buf[pos])
    }
}

/// Each label's text followed by a dot.
pub open spec fn labels_text(ls: Seq<Seq<u8>>) -> Seq<char>
    decreases ls.len(),
{
    if ls.len() == 0 {
        Seq::empty()
    } else {
        labels_text(ls.drop_last()) + decode_utf8(ls.last()) + seq!['.']
    }
}

/// The presentation form of a name: labels joined by dots with a final
/// dot, or "." for the root.
pub open spec fn name_text(ls: Seq<Seq<u8>>) -> Seq<char> {
    if ls.len() == 0 {
        seq!['.']
    } else {
        labels_text(ls)
    }
}

/// `acc` followed by the labels of `r`, if any.
pub open spec fn prepend_labels(acc: Seq<Seq<u8>>, r: Option<Seq<Seq<u8>>>) -> Option<Seq<Seq<u8>>> {
    match r {
        Some(x) => Some(acc + x),
        None => None,
    }
}

/// What decoding the name at `offset` yields: its text and the bytes it
/// occupies at `offset`, or `None` when the name is malformed.
pub open spec fn spec_decode_name(buf: Seq<u8>, offset: int) -> Option<(Seq<char>, int)> {
    match name_labels(buf, offset, Set::empty()) {
        Some(ls) => Some((name_text(ls), name_span(buf, offset))),
        None => None,
    }
}

/// Decodes the name at `offset`, following compression pointers. Returns the
/// name in presentation form (with a final dot) and the number of bytes it
/// occupies at `offset`.
pub fn decode_name(buf: &[u8], offset: usize) -> (r: Result<(String, usize), DnsError>)
    ensures
        match r {
            Ok((name, consumed)) => spec_decode_name(buf@, offset as int) == Some(
                (name@, consumed as int),
            ),
            Err(e) => spec_decode_name(buf@, offset as int) is None && e is Protocol,
        },
{
    let ghost b = buf@;
    let mut text = String::new();
    let ghost mut acc: Seq<Seq<u8>> = Seq::empty();
    let mut pos: usize = offset;
    let mut jumped = false;
    let mut any_label = false;
    let mut bytes_consumed: usize = 0;
    let mut visited: HashSet<usize> = HashSet::new();
    proof {
        broadcast use vstd::set::axiom_set_empty_finite;
        assert(visited@.subset_of(pointer_space()));
    }
    loop
        invariant
            b == buf@,
            visited@.finite(),
            visited@.subset_of(pointer_space()),
            name_labels(b, offset as int, Set::empty()) == prepend_labels(
                acc,
                name_labels(b, pos as int, visited@),
            ),
            text@ == labels_text(acc),
            any_label == (acc.len() > 0),
            !jumped ==> offset <= pos && name_span(b, offset as int) == (pos - offset) + name_span(b, pos as int),
            jumped ==> bytes_consumed == name_span(b, offset as int),
        ensures
            name_labels(b, offset as int, Set::empty()) == Some(acc),
            bytes_consumed == name_span(b, offset as int),
            text@ == labels_text(acc),
            any_label == (acc.len() > 0),
        decreases 16384 - visited@.len(), b.len() - pos,
    {
        if pos >= buf.len() {
            return Err(protocol_error("name extends beyond message"));
        }
        let len_byte = buf[pos];
        if len_byte == 0 {
            if !jumped {
                bytes_consumed = pos - offset + 1;
            }
            assert(acc + Seq::<Seq<u8>>::empty() =~= acc);
            assert(name_labels(b, pos as int, visited@) == Some(Seq::<Seq<u8>>::empty()));
            assert(name_labels(b, offset as int, Set::empty()) == Some(acc));
            assert(bytes_consumed == name_span(b, offset as int));
            break;
        }
        assert(len_byte & 0xC0 == 0xC0 <==> len_byte >= 192) by (bit_vector);
        if len_byte & 0xC0 == 0xC0 {
            if pos + 1 >= buf.len() {
                return Err(protocol_error("truncated compression pointer"));
            }
            assert(len_byte >= 192 ==> (len_byte & 0x3F) == len_byte - 192) by (bit_vector);
            let ptr: usize = ((len_byte & 0x3F) as usize) * 256 + buf[pos + 1] as usize;
            assert(ptr == pointer_target(b[pos as int], b[pos + 1]));
            if !jumped {
                bytes_consumed = pos - offset + 2;
                jumped = true;
            }
            let ghost old_visited = visited@;
            let fresh = visited.insert(ptr);
            if !fresh {
                return Err(protocol_error("compression pointer loop detected"));
            }
            proof {
                vstd::set::axiom_set_insert_finite(old_visited, ptr);
                range_set_properties::<usize>(0usize, 16384usize);
                vstd::set_lib::lemma_len_subset(visited@, pointer_space());
            }
            pos = ptr;
            continue;
        }
        let label_len = len_byte as usize;
        if label_len > buf.len() - pos - 1 {
            return Err(protocol_error("label extends beyond message"));
        }
        let label = copy_range(buf, pos + 1, pos + 1 + label_len);
        let ghost lb = label@;
        match utf8_decode(label) {
            Some(s) => {
                push_str(&mut text, s.as_str());
                push_char(&mut text, '.');
            },
            None => {
                return Err(protocol_error("invalid UTF-8 in label"));
            },
        }
        proof {
            assert(acc.push(lb) + name_labels(b, pos + 1 + label_len, visited@).unwrap_or(
                Seq::empty(),
            ) =~= acc + (seq![lb] + name_labels(b, pos + 1 + label_len, visited@).unwrap_or(
                Seq::empty(),
            )));
            assert(acc.push(lb).drop_last() =~= acc);
            acc = acc.push(lb);
        }
        any_label = true;
        pos = pos + 1 + label_len;
        if !jumped {
            bytes_consumed = pos - offset;
        }
    }
    if !any_label {
        let mut root = String::new();
        push_char(&mut root, '.');
        assert(root@ =~= name_text(acc));
        Ok((root, bytes_consumed))
    } else {
        Ok((text, bytes_consumed))
    }
}


/// `b` without its trailing dots.
pub open spec fn trim_dots(b: Seq<u8>) -> Seq<u8>
    decreases b.len(),
{
    if b.len() > 0 && b.last() == 46 {
        trim_dots(b.drop_last())
    } else {
        b
    }
}

/// `b` split at every dot byte, like `str::split('.')` (so "a..b" has an
/// empty middle label and "" has one empty label).
pub open spec fn split_dots(b: Seq<u8>) -> Seq<Seq<u8>>
    decreases b.len(),
{
    if b.len() == 0 {
        seq![Seq::empty()]
    } else {
        let s = split_dots(b.drop_last());
        if b.last() == 46 {
            s.push(Seq::empty())
        } else {
            s.update(s.len() - 1, s.last().push(b.last()))
        }
    }
}

/// A label may be 1 to 63 bytes long.
pub open spec fn label_ok(l: Seq<u8>) -> bool {
    1 <= l.len() <= 63
}

/// Length-prefixed labels, without the terminating zero byte.
pub open spec fn labels_wire(ls: Seq<Seq<u8>>) -> Seq<u8>
    decreases ls.len(),
{
    if ls.len() == 0 {
        Seq::empty()
    } else {
        labels_wire(ls.drop_last()) + seq![ls.last().len() as u8] + ls.last()
    }
}

/// The uncompressed wire form of a name given as UTF-8 bytes: trailing dots
/// are dropped, an empty result is the root, every label must be 1..=63
/// bytes and the whole encoding at most 255 bytes; `None` otherwise.
pub open spec fn spec_encode_name(b: Seq<u8>) -> Option<Seq<u8>> {
    let t = trim_dots(b);
    if t.len() == 0 {
        Some(seq![0u8])
    } else {
        let ls = split_dots(t);
        if forall|i: int| 0 <= i < ls.len() ==> label_ok(#[trigger] ls[i]) {
            let w = labels_wire(ls).push(0u8);
            if w.len() <= 255 {
                Some(w)
            } else {
                None
            }
        } else {
            None
        }
    }
}

proof fn lemma_split_nonempty(b: Seq<u8>)
    ensures
        split_dots(b).len() >= 1,
    decreases b.len(),
{
    if b.len() > 0 {
        lemma_split_nonempty(b.drop_last());
    }
}

proof fn lemma_split_stable(t: Seq<u8>, i: int, j: int)
    requires
        0 <= i <= j <= t.len(),
    ensures
        split_dots(t.take(i)).len() >= 1,
        split_dots(t.take(j)).len() >= split_dots(t.take(i)).len(),
        forall|m: int|
            0 <= m < split_dots(t.take(i)).len() - 1 ==> #[trigger] split_dots(t.take(j))[m]
                == split_dots(t.take(i))[m],
    decreases j - i,
{
    lemma_split_nonempty(t.take(i));
    if j > i {
        lemma_split_stable(t, i, j - 1);
        lemma_split_nonempty(t.take(j - 1));
        assert(t.take(j).drop_last() =~= t.take(j - 1));
    }
}

/// Encodes a name in uncompressed wire form (see `spec_encode_name`).
pub fn encode_name(name: &str) -> (r: Result<Vec<u8>, DnsError>)
    ensures
        match r {
            Ok(v) => spec_encode_name(name.spec_bytes()) == Some(v@),
            Err(e) => spec_encode_name(name.spec_bytes()) is None && e is Protocol,
        },
{
    let b = name.as_bytes();
    let ghost bb = b@;
    let mut end: usize = b.len();
    assert(bb.take(end as int) =~= bb);
    while end > 0 && b[end - 1] == 46
        invariant
            end <= bb.len(),
            bb == b@,
            trim_dots(bb) == trim_dots(bb.take(end as int)),
        decreases end,
    {
        assert(bb.take(end as int).drop_last() =~= bb.take(end - 1));
        end = end - 1;
    }
    let ghost t = bb.take(end as int);
    assert(trim_dots(bb) == t);
    let mut buf: Vec<u8> = Vec::new();
    if end == 0 {
        buf.push(0);
        assert(buf@ =~= seq![0u8]);
        return Ok(buf);
    }
    let mut start: usize = 0;
    let mut i: usize = 0;
    assert(t.take(0) =~= Seq::<u8>::empty());
    assert(t.subrange(0, 0) =~= Seq::<u8>::empty());
    while i < end
        invariant
            bb == b@,
            bb == name.spec_bytes(),
            end <= bb.len(),
            t == bb.take(end as int),
            trim_dots(bb) == t,
            end > 0,
            0 <= start <= i <= end,
            split_dots(t.take(i as int)).len() >= 1,
            split_dots(t.take(i as int)).last() == t.subrange(start as int, i as int),
            forall|j: int|
                0 <= j < split_dots(t.take(i as int)).len() - 1 ==> label_ok(
                    #[trigger] split_dots(t.take(i as int))[j],
                ),
            buf@ == labels_wire(split_dots(t.take(i as int)).drop_last()),
        decreases end - i,
    {
        let ghost s0 = split_dots(t.take(i as int));
        proof {
            lemma_split_nonempty(t.take(i as int));
        }
        assert(t.take(i + 1).drop_last() =~= t.take(i as int));
        assert(t.take(i + 1).last() == b@[i as int]);
        if b[i] == 46 {
            let len = i - start;
            if len == 0 || len > 63 {
                proof {
                    lemma_split_stable(t, i + 1, end as int);
                    assert(t.take(end as int) =~= t);
                    let s1 = split_dots(t.take(i + 1));
                    assert(s1 == s0.push(Seq::<u8>::empty()));
                    assert(s1[s0.len() - 1] == s0.last());
                    assert(split_dots(t)[s0.len() - 1] == s0.last());
                    assert(!label_ok(split_dots(t)[s0.len() - 1]));
                    assert(trim_dots(bb) == t);
                    assert(t.len() > 0);
                    assert(spec_encode_name(bb) is None);
                }
                return Err(protocol_error(if len == 0 {
                    "empty label in domain name"
                } else {
                    "label exceeds 63 bytes"
                }));
            }
            let ghost w0 = buf@;
            buf.push(len as u8);
            let label = copy_range(b, start, i);
            extend_bytes(&mut buf, label.as_slice());
            start = i + 1;
            proof {
                let s1 = split_dots(t.take(i + 1));
                assert(s1 == s0.push(Seq::<u8>::empty()));
                assert(s1.drop_last() =~= s0);
                assert(s0.drop_last().push(s0.last()) =~= s0);
                assert(buf@ =~= labels_wire(s0));
                assert(t.subrange(start as int, i + 1) =~= Seq::<u8>::empty());
            }
        } else {
            proof {
                let s1 = split_dots(t.take(i + 1));
                assert(s1.drop_last() =~= s0.drop_last());
                assert(s1.last() =~= t.subrange(start as int, i + 1));
                assert forall|j: int| 0 <= j < s1.len() - 1 implies label_ok(#[trigger] s1[j]) by {
                    assert(s1[j] == s0[j]);
                }
            }
        }
        i = i + 1;
    }
    assert(t.take(end as int) =~= t);
    let ghost ls = split_dots(t);
    assert(ls.last().len() == end - start);
    let len = end - start;
    if len == 0 || len > 63 {
        return Err(protocol_error(if len == 0 {
            "empty label in domain name"
        } else {
            "label exceeds 63 bytes"
        }));
    }
    buf.push(len as u8);
    let label = copy_range(b, start, end);
    extend_bytes(&mut buf, label.as_slice());
    buf.push(0);
    proof {
        assert(ls.drop_last().push(ls.last()) =~= ls);
        assert(buf@ =~= labels_wire(ls).push(0u8));
        assert forall|j: int| 0 <= j < ls.len() implies label_ok(#[trigger] ls[j]) by {
            if j < ls.len() - 1 {
            } else {
                assert(ls[j] == ls.last());
            }
        }
    }
    if buf.len() > 255 {
        return Err(protocol_error("domain name exceeds 255 bytes"));
    }
    Ok(buf)
}


/// A well-formed name occupies at least one byte and no more than what is
/// left of the buffer.
pub proof fn lemma_name_span_bound(buf: Seq<u8>, pos: int, visited: Set<usize>)
    requires
        visited.finite(),
        visited.subset_of(pointer_space()),
        0 <= pos,
        name_labels(buf, pos, visited) is Some,
    ensures
        1 <= name_span(buf, pos) <= buf.len() - pos,
    decreases buf.len() - pos,
{
    if pos < buf.len() && buf[pos] != 0 && !is_pointer_byte(buf[pos]) {
        let n = buf[pos] as int;
        lemma_name_span_bound(buf, pos + 1 + n, visited);
    }
}

/// The span that `decode_name` reports never runs past the buffer.
pub proof fn lemma_decoded_span(buf: Seq<u8>, offset: int)
    requires
        0 <= offset,
        spec_decode_name(buf, offset) is Some,
    ensures
        1 <= spec_decode_name(buf, offset).unwrap().1 <= buf.len() - offset,
{
    broadcast use vstd::set::axiom_set_empty_finite;
    assert(Set::<usize>::empty().subset_of(pointer_space()));
    lemma_name_span_bound(buf, offset, Set::empty());
}

} // verus!

verus! {

/// The wire form of a list of labels, read from the front: the first
/// label's length byte, the label, then the rest.
proof fn lemma_labels_wire_front(ls: Seq<Seq<u8>>)
    requires
        ls.len() > 0,
    ensures
        labels_wire(ls) == seq![ls[0].len() as u8] + ls[0] + labels_wire(ls.skip(1)),
    decreases ls.len(),
{
    if ls.len() == 1 {
        assert(ls.skip(1) =~= Seq::<Seq<u8>>::empty());
        assert(ls.drop_last() =~= Seq::<Seq<u8>>::empty());
        assert(labels_wire(ls.drop_last()) =~= Seq::<u8>::empty());
        assert(labels_wire(ls) =~= seq![ls[0].len() as u8] + ls[0]);
    } else {
        lemma_labels_wire_front(ls.drop_last());
        assert(ls.drop_last().skip(1) =~= ls.skip(1).drop_last());
        assert(ls.skip(1).last() == ls.last());
        assert(labels_wire(ls) =~= seq![ls[0].len() as u8] + ls[0] + labels_wire(ls.skip(1)));
    }
}

/// Decoding a run of well-formed labels ended by a zero byte, wherever it
/// stands in a buffer, gives back the labels and the run's length.
proof fn lemma_labels_decode(buf: Seq<u8>, pos: int, ls: Seq<Seq<u8>>, visited: Set<usize>)
    requires
        visited.finite(),
        visited.subset_of(pointer_space()),
        0 <= pos,
        pos + labels_wire(ls).len() + 1 <= buf.len(),
        buf.subrange(pos, pos + labels_wire(ls).len() + 1) == labels_wire(ls).push(0u8),
        forall|i: int|
            0 <= i < ls.len() ==> label_ok(#[trigger] ls[i]) && vstd::utf8::valid_utf8(ls[i]),
    ensures
        name_labels(buf, pos, visited) == Some(ls),
        name_span(buf, pos) == labels_wire(ls).len() + 1,
    decreases ls.len(),
{
    if ls.len() == 0 {
        assert(buf[pos] == buf.subrange(pos, pos + 1)[0]);
    } else {
        lemma_labels_wire_front(ls);
        let l0 = ls[0];
        let n = l0.len() as int;
        let rest = ls.skip(1);
        let w = labels_wire(ls).push(0u8);
        assert(w[0] == l0.len() as u8);
        assert(buf[pos] == w[0]);
        assert(buf.subrange(pos + 1, pos + 1 + n) =~= l0) by {
            assert forall|k: int| 0 <= k < n implies buf.subrange(pos + 1, pos + 1 + n)[k] == l0[k] by {
                assert(buf[pos + 1 + k] == w[1 + k]);
            }
        }
        assert(buf.subrange(pos + 1 + n, pos + 1 + n + labels_wire(rest).len() + 1) =~= labels_wire(
            rest,
        ).push(0u8)) by {
            assert forall|k: int| 0 <= k < labels_wire(rest).len() + 1 implies buf.subrange(
                pos + 1 + n,
                pos + 1 + n + labels_wire(rest).len() + 1,
            )[k] == labels_wire(rest).push(0u8)[k] by {
                assert(buf[pos + 1 + n + k] == w[1 + n + k]);
            }
        }
        assert forall|i: int| 0 <= i < rest.len() implies label_ok(#[trigger] rest[i])
            && vstd::utf8::valid_utf8(rest[i]) by {
            assert(rest[i] == ls[i + 1]);
        }
        lemma_labels_decode(buf, pos + 1 + n, rest, visited);
        assert(seq![l0] + rest =~= ls);
    }
}

/// Decoding the wire form of well-formed labels (1 to 63 bytes, valid
/// UTF-8), wherever it stands in a buffer, gives back their text and the
/// whole length of the encoding.
pub proof fn lemma_name_wire_roundtrip(ls: Seq<Seq<u8>>, pre: Seq<u8>, rest: Seq<u8>)
    requires
        forall|i: int|
            0 <= i < ls.len() ==> label_ok(#[trigger] ls[i]) && vstd::utf8::valid_utf8(ls[i]),
    ensures
        spec_decode_name(pre + labels_wire(ls).push(0u8) + rest, pre.len() as int) == Some(
            (name_text(ls), (labels_wire(ls).len() + 1) as int),
        ),
{
    broadcast use vstd::set::axiom_set_empty_finite;
    let wire = labels_wire(ls).push(0u8);
    let w = pre + wire + rest;
    assert(Set::<usize>::empty().subset_of(pointer_space()));
    assert(w.subrange(pre.len() as int, (pre.len() + wire.len()) as int) =~= wire);
    lemma_labels_decode(w, pre.len() as int, ls, Set::empty());
}

/// The index of the last dot byte of `b`, or -1 when it has none.
pub open spec fn last_dot(b: Seq<u8>) -> int
    decreases b.len(),
{
    if b.len() == 0 {
        -1
    } else if b.last() == 46 {
        b.len() - 1
    } else {
        last_dot(b.drop_last())
    }
}

/// Splitting at the dots: the labels before the last dot, then the bytes
/// after it; a single label when there is no dot.
proof fn lemma_split_at_last_dot(b: Seq<u8>)
    ensures
        -1 <= last_dot(b) < b.len(),
        last_dot(b) >= 0 ==> b[last_dot(b)] == 46 && split_dots(b) == split_dots(
            b.take(last_dot(b)),
        ).push(b.skip(last_dot(b) + 1)),
        last_dot(b) == -1 ==> split_dots(b) == seq![b],
    decreases b.len(),
{
    if b.len() > 0 {
        let p = b.drop_last();
        lemma_split_at_last_dot(p);
        let k = last_dot(p);
        if b.last() == 46 {
            assert(b.take(b.len() - 1) =~= p);
            assert(b.skip(b.len() as int) =~= Seq::<u8>::empty());
        } else if k >= 0 {
            assert(b.take(k) =~= p.take(k));
            assert(p.skip(k + 1).push(b.last()) =~= b.skip(k + 1));
            assert(split_dots(b) =~= split_dots(b.take(k)).push(b.skip(k + 1)));
        } else {
            assert(p.push(b.last()) =~= b);
            assert(split_dots(b) =~= seq![b]);
        }
    } else {
        assert(b =~= Seq::<u8>::empty());
    }
}

/// In valid UTF-8 a dot byte starts a character, so the bytes before it and
/// the bytes after it are valid UTF-8 too, and decoding splits there.
proof fn lemma_utf8_dot_split(b: Seq<u8>, k: int)
    requires
        vstd::utf8::valid_utf8(b),
        0 <= k < b.len(),
        b[k] == 46,
    ensures
        vstd::utf8::valid_utf8(b.take(k)),
        vstd::utf8::valid_utf8(b.skip(k + 1)),
        decode_utf8(b) == decode_utf8(b.take(k)) + seq!['.'] + decode_utf8(b.skip(k + 1)),
{
    vstd::utf8::is_char_boundary_iff_not_is_continuation_byte(b, k);
    vstd::utf8::valid_utf8_split(b, k);
    vstd::utf8::decode_utf8_split(b, k);
    let z = b.subrange(k, b.len() as int);
    assert(b.take(k) =~= b.subrange(0, k));
    assert(z[0] == 46);
    assert(vstd::utf8::pop_first_scalar(z) =~= b.skip(k + 1));
    assert((46u8 & 0x7Fu8) == 46u8) by (bit_vector);
    assert(vstd::utf8::decode_first_scalar(z) == 46u32);
    assert((46u32 as char) == '.');
    assert(decode_utf8(z) =~= seq!['.'] + decode_utf8(b.skip(k + 1)));
}

/// The labels of valid UTF-8 are valid UTF-8, and their text is the
/// decoded bytes followed by a dot.
proof fn lemma_split_text(t: Seq<u8>)
    requires
        vstd::utf8::valid_utf8(t),
    ensures
        forall|i: int|
            0 <= i < split_dots(t).len() ==> vstd::utf8::valid_utf8(#[trigger] split_dots(t)[i]),
        labels_text(split_dots(t)) == decode_utf8(t).push('.'),
    decreases t.len(),
{
    lemma_split_at_last_dot(t);
    let k = last_dot(t);
    if k == -1 {
        let ls = split_dots(t);
        assert(ls.drop_last() =~= Seq::<Seq<u8>>::empty());
        assert(ls.last() == t);
        assert(labels_text(ls.drop_last()) == Seq::<char>::empty());
        assert(labels_text(ls) =~= decode_utf8(t).push('.'));
    } else {
        let x = t.take(k);
        let y = t.skip(k + 1);
        lemma_utf8_dot_split(t, k);
        lemma_split_text(x);
        let ls = split_dots(x).push(y);
        assert(ls.drop_last() =~= split_dots(x));
        assert(labels_text(split_dots(t)) =~= decode_utf8(t).push('.'));
        assert forall|i: int| 0 <= i < split_dots(t).len() implies vstd::utf8::valid_utf8(
            #[trigger] split_dots(t)[i],
        ) by {
            if i < split_dots(x).len() {
                assert(split_dots(t)[i] == split_dots(x)[i]);
            }
        }
    }
}

/// Trailing dots of valid UTF-8 can be dropped and leave valid UTF-8.
proof fn lemma_trim_valid(b: Seq<u8>)
    requires
        vstd::utf8::valid_utf8(b),
    ensures
        vstd::utf8::valid_utf8(trim_dots(b)),
    decreases b.len(),
{
    if b.len() > 0 && b.last() == 46 {
        lemma_utf8_dot_split(b, b.len() - 1);
        assert(b.take(b.len() - 1) =~= b.drop_last());
        lemma_trim_valid(b.drop_last());
    }
}

/// The text a name given as UTF-8 bytes reads as once encoded: without its
/// trailing dots and followed by one dot, or "." for the root.
spec fn spec_name_text_of(b: Seq<u8>) -> Seq<char> {
    let t = trim_dots(b);
    if t.len() == 0 {
        seq!['.']
    } else {
        decode_utf8(t).push('.')
    }
}

/// `lemma_name_text_roundtrip` for a name given as valid UTF-8 bytes.
proof fn lemma_name_roundtrip(b: Seq<u8>, pre: Seq<u8>, rest: Seq<u8>)
    requires
        vstd::utf8::valid_utf8(b),
        spec_encode_name(b) is Some,
    ensures
        spec_decode_name(pre + spec_encode_name(b)->0 + rest, pre.len() as int) == Some(
            (spec_name_text_of(b), spec_encode_name(b)->0.len() as int),
        ),
{
    let t = trim_dots(b);
    if t.len() == 0 {
        lemma_name_wire_roundtrip(Seq::empty(), pre, rest);
        assert(labels_wire(Seq::<Seq<u8>>::empty()).push(0u8) =~= seq![0u8]);
    } else {
        let ls = split_dots(t);
        lemma_trim_valid(b);
        lemma_split_text(t);
        assert(forall|i: int| 0 <= i < ls.len() ==> label_ok(#[trigger] ls[i]));
        lemma_name_wire_roundtrip(ls, pre, rest);
        lemma_split_nonempty(t);
    }
}

/// `s` without its trailing '.' characters.
pub open spec fn trim_dot_chars(s: Seq<char>) -> Seq<char>
    decreases s.len(),
{
    if s.len() > 0 && s.last() == '.' {
        trim_dot_chars(s.drop_last())
    } else {
        s
    }
}

/// The presentation form a name reads as once encoded and decoded: the name
/// without its trailing dots, followed by one dot, or "." for the root.
pub open spec fn spec_name_text(s: Seq<char>) -> Seq<char> {
    let t = trim_dot_chars(s);
    if t.len() == 0 {
        seq!['.']
    } else {
        t.push('.')
    }
}

/// The UTF-8 encoding of a character ends in a dot byte only for '.'.
proof fn lemma_scalar_last_byte(c: char)
    ensures
        encode_scalar(c as u32).len() >= 1,
        (encode_scalar(c as u32).last() == 46u8) <==> (c == '.'),
{
    let v = c as u32;
    vstd::utf8::char_is_scalar(c);
    if vstd::utf8::has_width_1_encoding(v) {
        assert(v <= 0x7F ==> (((v & 0x7F) as u8 == 46u8) <==> v == 46)) by (bit_vector);
    } else {
        assert((0x80u8 | (v & 0x3F) as u8) >= 0x80u8) by (bit_vector);
    }
    if v == 46 {
        vstd::utf8::char_u32_cast(c, v);
    }
}

/// Encoding one more character appends its encoding.
proof fn lemma_encode_push(s: Seq<char>, c: char)
    ensures
        encode_utf8(s.push(c)) == encode_utf8(s) + encode_scalar(c as u32),
    decreases s.len(),
{
    if s.len() == 0 {
        let sc = s.push(c);
        assert(sc.drop_first() =~= Seq::<char>::empty());
        assert(sc[0] == c);
        assert(encode_utf8(sc.drop_first()) == Seq::<u8>::empty());
        assert(encode_utf8(sc) == encode_scalar(c as u32) + encode_utf8(sc.drop_first()));
        assert(encode_utf8(sc) =~= encode_utf8(s) + encode_scalar(c as u32));
    } else {
        lemma_encode_push(s.drop_first(), c);
        let sc = s.push(c);
        assert(sc.drop_first() =~= s.drop_first().push(c));
        assert(sc[0] == s[0]);
        assert(encode_utf8(sc) == encode_scalar(s[0] as u32) + encode_utf8(sc.drop_first()));
        assert(encode_utf8(s) == encode_scalar(s[0] as u32) + encode_utf8(s.drop_first()));
        assert(encode_utf8(sc) =~= encode_utf8(s) + encode_scalar(c as u32));
    }
}

/// Dropping trailing dot bytes from an encoding is encoding the text without
/// its trailing dots.
proof fn lemma_trim_encode(s: Seq<char>)
    ensures
        trim_dots(encode_utf8(s)) == encode_utf8(trim_dot_chars(s)),
    decreases s.len(),
{
    if s.len() > 0 {
        let p = s.drop_last();
        let c = s.last();
        assert(p.push(c) =~= s);
        lemma_encode_push(p, c);
        lemma_scalar_last_byte(c);
        let e = encode_utf8(s);
        assert(e.last() == encode_scalar(c as u32).last());
        if c == '.' {
            assert(encode_scalar(c as u32).len() == 1) by {
                vstd::utf8::char_is_scalar(c);
            }
            assert(e.drop_last() =~= encode_utf8(p));
            lemma_trim_encode(p);
        }
    }
}

/// Decoding what `encode_name` wrote for a name, wherever it stands in a
/// buffer, gives back the name without its trailing dots, followed by a
/// single dot ("." for the root), and uses up the whole encoding.
pub proof fn lemma_name_text_roundtrip(s: Seq<char>, pre: Seq<u8>, rest: Seq<u8>)
    requires
        spec_encode_name(encode_utf8(s)) is Some,
    ensures
        spec_decode_name(pre + spec_encode_name(encode_utf8(s))->0 + rest, pre.len() as int) == Some(
            (spec_name_text(s), spec_encode_name(encode_utf8(s))->0.len() as int),
        ),
{
    let b = encode_utf8(s);
    vstd::utf8::encode_utf8_valid_utf8(s);
    lemma_name_roundtrip(b, pre, rest);
    lemma_trim_encode(s);
    let t = trim_dot_chars(s);
    vstd::utf8::encode_utf8_decode_utf8(t);
    if t.len() > 0 {
        vstd::utf8::encode_utf8_first_scalar(t);
    }
}

/// What decoding a name rejects and what it gives back: no name starts at
/// or past the end of the buffer; a compression pointer missing its second
/// byte, a pointer to itself, a label running past the buffer and a label
/// that is not UTF-8 are all rejected; a decoded name ends with a dot and
/// occupies between one byte and the rest of the buffer.
pub proof fn lemma_decode_name_cases(buf: Seq<u8>, offset: int)
    requires
        0 <= offset,
    ensures
        offset >= buf.len() ==> spec_decode_name(buf, offset) is None,
        offset < buf.len() && is_pointer_byte(buf[offset]) && offset + 1 >= buf.len()
            ==> spec_decode_name(buf, offset) is None,
        offset + 1 < buf.len() && is_pointer_byte(buf[offset]) && pointer_target(
            buf[offset],
            buf[offset + 1],
        ) == offset ==> spec_decode_name(buf, offset) is None,
        offset < buf.len() && buf[offset] != 0 && !is_pointer_byte(buf[offset]) && offset + 1
            + buf[offset] > buf.len() ==> spec_decode_name(buf, offset) is None,
        offset < buf.len() && buf[offset] != 0 && !is_pointer_byte(buf[offset]) && offset + 1
            + buf[offset] <= buf.len() && !vstd::utf8::valid_utf8(
            buf.subrange(offset + 1, offset + 1 + buf[offset]),
        ) ==> spec_decode_name(buf, offset) is None,
        spec_decode_name(buf, offset) matches Some((t, n)) ==> {
            &&& t.len() > 0
            &&& t.last() == '.'
            &&& 1 <= n <= buf.len() - offset
        },
{
    broadcast use vstd::set::axiom_set_empty_finite;
    assert(Set::<usize>::empty().subset_of(pointer_space()));
    if offset + 1 < buf.len() && is_pointer_byte(buf[offset]) {
        let ptr = pointer_target(buf[offset], buf[offset + 1]);
        if ptr == offset {
            let v = Set::<usize>::empty().insert(ptr);
            assert(ptr < 16384);
            assert(pointer_space().contains(ptr));
            assert(v.subset_of(pointer_space()));
            assert(v.contains(ptr));
            assert(name_labels(buf, ptr as int, v) is None);
        }
    }
    if spec_decode_name(buf, offset) is Some {
        lemma_decoded_span(buf, offset);
        let ls = name_labels(buf, offset, Set::empty())->0;
        if ls.len() > 0 {
            assert(labels_text(ls) == labels_text(ls.drop_last()) + decode_utf8(ls.last()) + seq!['.']);
        }
    }
}

} // verus!
