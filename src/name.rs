use vstd::prelude::*;
use vstd::slice::slice_subrange;
use vstd::slice::slice_to_vec;
use vstd::string::StringSliceAdditionalSpecFns;

use crate::cursor::ByteCursor;
use crate::error::DnsError;

verus! {

/// The byte that separates the labels of a dotted name.
pub const DOT: u8 = 46;

/// The longest label that a name may hold.
pub const MAX_LABEL_LEN: usize = 63;

/// How many compression pointers one name may follow before it is refused.
pub const MAX_POINTER_HOPS: u32 = 32;

/// The dot-separated parts of `s`, empty ones included.
pub open spec fn split_labels(s: Seq<u8>) -> Seq<Seq<u8>>
    decreases s.len(),
{
    if s.len() == 0 {
        seq![Seq::empty()]
    } else {
        let prev = split_labels(s.drop_last());
        if s.last() == DOT {
            prev.push(Seq::empty())
        } else {
            prev.update(prev.len() - 1, prev.last().push(s.last()))
        }
    }
}

/// The labels joined by single dots.
pub open spec fn join_labels(ls: Seq<Seq<u8>>) -> Seq<u8>
    decreases ls.len(),
{
    if ls.len() == 0 {
        Seq::empty()
    } else if ls.len() == 1 {
        ls[0]
    } else {
        join_labels(ls.drop_last()) + seq![DOT] + ls.last()
    }
}

/// The wire form of one label: its length, then its bytes. An empty label
/// is left out.
pub open spec fn label_wire(l: Seq<u8>) -> Seq<u8> {
    if l.len() == 0 {
        Seq::empty()
    } else {
        seq![l.len() as u8] + l
    }
}

/// The wire forms of the labels, one after the other.
pub open spec fn labels_wire(ls: Seq<Seq<u8>>) -> Seq<u8>
    decreases ls.len(),
{
    if ls.len() == 0 {
        Seq::empty()
    } else {
        label_wire(ls[0]) + labels_wire(ls.drop_first())
    }
}

/// Whether some label of the dotted name `s` is longer than the limit.
pub open spec fn has_long_label(s: Seq<u8>) -> bool {
    exists|k: int| 0 <= k < split_labels(s).len() && split_labels(s)[k].len() > MAX_LABEL_LEN
}

/// The uncompressed wire form of the dotted name `s`, ended by a zero byte.
pub open spec fn encoded_name(s: Seq<u8>) -> Result<Seq<u8>, DnsError> {
    if has_long_label(s) {
        Err(DnsError::LabelTooLong)
    } else {
        Ok(labels_wire(split_labels(s)).push(0))
    }
}

/// A dotted name made of labels of 1 to 63 bytes each.
pub open spec fn valid_domain(s: Seq<u8>) -> bool {
    forall|k: int|
        0 <= k < split_labels(s).len() ==> 1 <= #[trigger] split_labels(s)[k].len()
            <= MAX_LABEL_LEN
}

/// The offset that the compression pointer made of bytes `hi`, `lo` points to.
pub open spec fn pointer_target(hi: u8, lo: u8) -> int {
    (hi as int % 64) * 256 + lo as int
}

/// The labels of the name that starts at `pos` of the message `buf`, and the
/// position just after it, following at most `hops` compression pointers. A
/// zero length byte ends the name; one with either of its top two bits set
/// starts a two-byte pointer, which ends it too.
pub open spec fn labels_at(buf: Seq<u8>, pos: int, hops: nat) -> Result<
    (Seq<Seq<u8>>, int),
    DnsError,
>
    decreases hops, buf.len() - pos,
{
    if pos < 0 || pos >= buf.len() {
        Err(DnsError::TruncatedName)
    } else if buf[pos] == 0 {
        Ok((Seq::empty(), pos + 1))
    } else if buf[pos] >= 64 {
        if pos + 1 >= buf.len() {
            Err(DnsError::TruncatedName)
        } else if pointer_target(buf[pos], buf[pos + 1]) >= buf.len() || hops == 0 {
            Err(DnsError::InvalidCompressionPointer)
        } else {
            match labels_at(buf, pointer_target(buf[pos], buf[pos + 1]), (hops - 1) as nat) {
                Ok((ls, _)) => Ok((ls, pos + 2)),
                Err(e) => Err(e),
            }
        }
    } else {
        let end = pos + 1 + buf[pos];
        if end > buf.len() {
            Err(DnsError::TruncatedName)
        } else {
            match labels_at(buf, end, hops) {
                Ok((ls, e)) => Ok((seq![buf.subrange(pos + 1, end)] + ls, e)),
                Err(e) => Err(e),
            }
        }
    }
}

/// The dotted name that starts at `pos` of `buf`, and the position after it.
pub open spec fn decoded_name(buf: Seq<u8>, pos: int) -> Result<(Seq<u8>, int), DnsError> {
    match labels_at(buf, pos, MAX_POINTER_HOPS as nat) {
        Ok((ls, end)) => Ok((join_labels(ls), end)),
        Err(e) => Err(e),
    }
}


proof fn lemma_split_len(s: Seq<u8>)
    ensures
        split_labels(s).len() >= 1,
    decreases s.len(),
{
    if s.len() > 0 {
        lemma_split_len(s.drop_last());
    }
}

/// Growing a prefix of `s` by one byte either opens a new empty label or
/// extends the last one.
proof fn lemma_split_step(s: Seq<u8>, i: int)
    requires
        0 <= i < s.len(),
    ensures
        split_labels(s.subrange(0, i)).len() >= 1,
        s[i] == DOT ==> split_labels(s.subrange(0, i + 1)) == split_labels(s.subrange(0, i)).push(
            Seq::empty(),
        ),
        s[i] != DOT ==> split_labels(s.subrange(0, i + 1)) == {
            let prev = split_labels(s.subrange(0, i));
            prev.update(prev.len() - 1, prev.last().push(s[i]))
        },
{
    lemma_split_len(s.subrange(0, i));
    assert(s.subrange(0, i + 1).drop_last() =~= s.subrange(0, i));
}

/// The labels that a prefix of `s` has completed stay labels of every longer
/// prefix.
proof fn lemma_split_prefix(s: Seq<u8>, i: int, j: int)
    requires
        0 <= i <= j <= s.len(),
    ensures
        split_labels(s.subrange(0, j)).len() >= split_labels(s.subrange(0, i)).len(),
        forall|k: int|
            0 <= k < split_labels(s.subrange(0, i)).len() - 1 ==> split_labels(s.subrange(0, j))[k]
                == split_labels(s.subrange(0, i))[k],
    decreases j - i,
{
    if j > i {
        lemma_split_prefix(s, i, j - 1);
        lemma_split_step(s, j - 1);
    }
}

proof fn lemma_labels_wire_push(ls: Seq<Seq<u8>>, l: Seq<u8>)
    ensures
        labels_wire(ls.push(l)) == labels_wire(ls) + label_wire(l),
    decreases ls.len(),
{
    if ls.len() == 0 {
        assert(ls.push(l).drop_first() =~= Seq::<Seq<u8>>::empty());
        assert(labels_wire(ls.push(l).drop_first()) == Seq::<u8>::empty());
        assert(labels_wire(ls) == Seq::<u8>::empty());
        assert(labels_wire(ls.push(l)) =~= label_wire(l));
    } else {
        assert(ls.push(l).drop_first() =~= ls.drop_first().push(l));
        lemma_labels_wire_push(ls.drop_first(), l);
        assert(labels_wire(ls.push(l)) =~= labels_wire(ls) + label_wire(l));
    }
}

/// Joining the labels of `s` gives `s` back.
proof fn lemma_join_split(s: Seq<u8>)
    ensures
        join_labels(split_labels(s)) == s,
    decreases s.len(),
{
    if s.len() > 0 {
        let t = s.drop_last();
        lemma_join_split(t);
        lemma_split_len(t);
        let prev = split_labels(t);
        if s.last() == DOT {
            assert(prev.push(Seq::empty()).drop_last() =~= prev);
            assert(join_labels(prev.push(Seq::empty())) =~= s);
        } else {
            let next = prev.update(prev.len() - 1, prev.last().push(s.last()));
            if prev.len() == 1 {
                assert(next[0] =~= s);
            } else {
                assert(next.drop_last() =~= prev.drop_last());
                assert(join_labels(prev) == join_labels(prev.drop_last()) + seq![DOT]
                    + prev.last());
                assert(join_labels(next) == join_labels(next.drop_last()) + seq![DOT]
                    + next.last());
                assert(s =~= t.push(s.last()));
                assert(join_labels(next) =~= s);
            }
        }
    }
}

/// The wire form of labels of 1 to 63 bytes, ended by a zero byte, decodes to
/// those labels.
proof fn lemma_labels_at_wire(buf: Seq<u8>, pos: int, ls: Seq<Seq<u8>>, hops: nat)
    requires
        0 <= pos,
        pos + labels_wire(ls).len() + 1 <= buf.len(),
        buf.subrange(pos, pos + labels_wire(ls).len() + 1) == labels_wire(ls).push(0),
        forall|k: int| 0 <= k < ls.len() ==> 1 <= #[trigger] ls[k].len() <= MAX_LABEL_LEN,
    ensures
        labels_at(buf, pos, hops) == Ok::<(Seq<Seq<u8>>, int), DnsError>(
            (ls, pos + labels_wire(ls).len() + 1),
        ),
    decreases ls.len(),
{
    let w = labels_wire(ls);
    assert(buf[pos] == buf.subrange(pos, pos + w.len() + 1)[0]);
    if ls.len() == 0 {
        assert(w.push(0)[0] == 0);
        assert(buf[pos] == 0);
        assert(ls =~= Seq::<Seq<u8>>::empty());
        assert(labels_at(buf, pos, hops) == Ok::<(Seq<Seq<u8>>, int), DnsError>((ls, pos + 1)));
    } else {
        let l = ls[0];
        let rest = ls.drop_first();
        let n = l.len();
        let end = pos + 1 + n;
        assert(1 <= ls[0].len() <= MAX_LABEL_LEN);
        assert((n as u8) as int == n);
        assert(w == seq![n as u8] + l + labels_wire(rest));
        assert(end + labels_wire(rest).len() == pos + w.len());
        assert forall|k: int| 0 <= k < rest.len() implies 1 <= #[trigger] rest[k].len()
            <= MAX_LABEL_LEN by {
            assert(rest[k] == ls[k + 1]);
        }
        assert(buf[pos] == n as u8);
        assert(buf.subrange(pos + 1, end) =~= l) by {
            assert forall|k: int| 0 <= k < n implies buf.subrange(pos + 1, end)[k] == l[k] by {
                assert(buf[pos + 1 + k] == buf.subrange(pos, pos + w.len() + 1)[1 + k]);
            }
        }
        assert(buf.subrange(end, end + labels_wire(rest).len() + 1) =~= labels_wire(rest).push(0))
            by {
            assert forall|k: int| 0 <= k < labels_wire(rest).len() + 1 implies buf.subrange(
                end,
                end + labels_wire(rest).len() + 1,
            )[k] == labels_wire(rest).push(0)[k] by {
                assert(buf[end + k] == buf.subrange(pos, pos + w.len() + 1)[1 + n + k]);
            }
        }
        lemma_labels_at_wire(buf, end, rest, hops);
        assert(seq![l] + rest =~= ls);
        assert(0 < buf[pos] < 64);
        assert(end <= buf.len());
        assert(labels_at(buf, end, hops) == Ok::<(Seq<Seq<u8>>, int), DnsError>(
            (rest, end + labels_wire(rest).len() + 1)));
        assert(labels_at(buf, pos, hops) == Ok::<(Seq<Seq<u8>>, int), DnsError>(
            (seq![buf.subrange(pos + 1, end)] + rest, end + labels_wire(rest).len() + 1)));
    }
}

/// Decoding the encoding of a name made of labels of 1 to 63 bytes gives the
/// name back, and reads the whole encoding.
pub proof fn lemma_round_trip(domain: Seq<u8>)
    requires
        valid_domain(domain),
    ensures
        encoded_name(domain) is Ok,
        decoded_name(encoded_name(domain)->Ok_0, 0) == Ok::<(Seq<u8>, int), DnsError>(
            (domain, encoded_name(domain)->Ok_0.len() as int),
        ),
{
    let ls = split_labels(domain);
    let w = labels_wire(ls);
    assert(!has_long_label(domain));
    let buf = w.push(0);
    assert(buf.subrange(0, w.len() as int + 1) =~= buf);
    lemma_labels_at_wire(buf, 0, ls, MAX_POINTER_HOPS as nat);
    lemma_join_split(domain);
}

proof fn lemma_split_no_dot(s: Seq<u8>)
    requires
        forall|i: int| 0 <= i < s.len() ==> s[i] != DOT,
    ensures
        split_labels(s) == seq![s],
    decreases s.len(),
{
    if s.len() == 0 {
        assert(s =~= Seq::<u8>::empty());
    } else {
        let t = s.drop_last();
        lemma_split_no_dot(t);
        assert(t.push(s.last()) =~= s);
        assert(seq![t].update(0, t.push(s.last())) =~= seq![s]);
    }
}

/// A name of one label encodes exactly when the label is at most 63 bytes
/// long; a longer one fails with `LabelTooLong`.
pub proof fn lemma_label_length_boundary(label: Seq<u8>)
    requires
        forall|i: int| 0 <= i < label.len() ==> label[i] != DOT,
    ensures
        encoded_name(label) is Ok <==> label.len() <= MAX_LABEL_LEN,
        label.len() > MAX_LABEL_LEN ==> encoded_name(label) == Err::<Seq<u8>, DnsError>(
            DnsError::LabelTooLong,
        ),
{
    lemma_split_no_dot(label);
    if label.len() > MAX_LABEL_LEN {
        assert(split_labels(label)[0].len() > MAX_LABEL_LEN);
    }
}

/// Encodes one label as its length followed by its bytes.
fn try_encode_domain_label(part: &[u8]) -> (r: Result<Vec<u8>, DnsError>)
    ensures
        part@.len() > MAX_LABEL_LEN ==> r == Err::<Vec<u8>, DnsError>(DnsError::LabelTooLong),
        part@.len() <= MAX_LABEL_LEN ==> (r matches Ok(v) && v@ == seq![part@.len() as u8]
            + part@),
{
    let n = part.len();
    if n > MAX_LABEL_LEN {
        return Err(DnsError::LabelTooLong);
    }
    let mut out: Vec<u8> = Vec::with_capacity(n + 1);
    out.push(n as u8);
    let mut i: usize = 0;
    while i < n
        invariant
            n == part@.len(),
            i <= n,
            out@ == seq![n as u8] + part@.subrange(0, i as int),
        decreases n - i,
    {
        out.push(part[i]);
        i = i + 1;
        assert(out@ =~= seq![n as u8] + part@.subrange(0, i as int));
    }
    assert(part@.subrange(0, n as int) =~= part@);
    Ok(out)
}

/// Encodes a dotted domain name as length-prefixed labels ended by a zero
/// byte. Empty labels are left out; a label longer than 63 bytes fails the
/// whole encoding.
pub fn try_encode_dns_name(domain: &str) -> (r: Result<Vec<u8>, DnsError>)
    ensures
        match encoded_name(domain.spec_bytes()) {
            Ok(w) => r matches Ok(v) && v@ == w,
            Err(e) => r == Err::<Vec<u8>, DnsError>(e),
        },
{
    let bytes = domain.as_bytes();
    let ghost s = bytes@;
    let mut out: Vec<u8> = Vec::new();
    let mut start: usize = 0;
    let mut i: usize = 0;
    proof {
        lemma_split_len(s.subrange(0, 0));
        assert(s.subrange(0, 0) =~= Seq::<u8>::empty());
        assert(split_labels(Seq::<u8>::empty()).drop_last() =~= Seq::<Seq<u8>>::empty());
    }
    while i < bytes.len()
        invariant
            s == bytes@,
            s == domain.spec_bytes(),
            start <= i <= s.len(),
            split_labels(s.subrange(0, i as int)).len() >= 1,
            split_labels(s.subrange(0, i as int)).last() == s.subrange(start as int, i as int),
            out@ == labels_wire(split_labels(s.subrange(0, i as int)).drop_last()),
            forall|k: int|
                0 <= k < split_labels(s.subrange(0, i as int)).len() - 1 ==> #[trigger] split_labels(
                    s.subrange(0, i as int),
                )[k].len() <= MAX_LABEL_LEN,
        decreases s.len() - i,
    {
        let ghost prev = split_labels(s.subrange(0, i as int));
        proof {
            lemma_split_step(s, i as int);
        }
        if bytes[i] == DOT {
            let ghost next = split_labels(s.subrange(0, i as int + 1));
            assert(next.drop_last() =~= prev);
            proof {
                lemma_labels_wire_push(prev.drop_last(), prev.last());
                assert(prev.drop_last().push(prev.last()) =~= prev);
            }
            if i - start > 0 {
                let part = slice_subrange(bytes, start, i);
                match try_encode_domain_label(part) {
                    Ok(mut enc) => {
                        out.append(&mut enc);
                    },
                    Err(e) => {
                        proof {
                            lemma_split_prefix(s, i as int + 1, s.len() as int);
                            assert(s.subrange(0, s.len() as int) =~= s);
                            let k = prev.len() - 1;
                            assert(split_labels(s)[k] == next[k]);
                        }
                        return Err(e);
                    },
                }
            } else {
                assert(label_wire(prev.last()) =~= Seq::<u8>::empty());
                assert(out@ + label_wire(prev.last()) =~= out@);
            }
            start = i + 1;
            assert(split_labels(s.subrange(0, i as int + 1)).last() =~= s.subrange(
                start as int,
                i as int + 1,
            ));
        } else {
            let ghost next = split_labels(s.subrange(0, i as int + 1));
            assert(next.drop_last() =~= prev.drop_last());
            assert(next.last() =~= s.subrange(start as int, i as int + 1));
        }
        i = i + 1;
    }
    assert(s.subrange(0, i as int) =~= s);
    let ghost ls = split_labels(s);
    proof {
        lemma_labels_wire_push(ls.drop_last(), ls.last());
        assert(ls.drop_last().push(ls.last()) =~= ls);
    }
    if i - start > 0 {
        let part = slice_subrange(bytes, start, i);
        match try_encode_domain_label(part) {
            Ok(mut enc) => {
                out.append(&mut enc);
            },
            Err(e) => {
                return Err(e);
            },
        }
    } else {
        assert(out@ + label_wire(ls.last()) =~= out@);
    }
    assert(!has_long_label(s));
    out.push(0);
    Ok(out)
}

/// The labels of the name at `pos` of `buf`, and the position after it.
fn decode_labels(buf: &[u8], pos: usize, hops: u32) -> (r: Result<(Vec<Vec<u8>>, usize), DnsError>)
    ensures
        match labels_at(buf@, pos as int, hops as nat) {
            Ok((ls, end)) => (r matches Ok((v, e)) && v.deep_view() == ls && e == end),
            Err(err) => r == Err::<(Vec<Vec<u8>>, usize), DnsError>(err),
        },
    decreases hops, buf@.len() - pos,
{
    if pos >= buf.len() {
        return Err(DnsError::TruncatedName);
    }
    let length = buf[pos];
    if length == 0 {
        let v: Vec<Vec<u8>> = Vec::new();
        assert(v.deep_view() =~= Seq::<Seq<u8>>::empty());
        Ok((v, pos + 1))
    } else if length & 0b1100_0000 != 0 {
        assert(length & 0b1100_0000 != 0 <==> length >= 64) by (bit_vector);
        decode_compressed_name(buf, pos, hops)
    } else {
        assert(length & 0b1100_0000 != 0 <==> length >= 64) by (bit_vector);
        let start = pos + 1;
        if buf.len() - start < length as usize {
            return Err(DnsError::TruncatedName);
        }
        let end = start + length as usize;
        let label = slice_to_vec(slice_subrange(buf, start, end));
        match decode_labels(buf, end, hops) {
            Ok((mut rest, after)) => {
                let ghost tail = rest.deep_view();
                assert(label.deep_view() =~= label@);
                rest.insert(0, label);
                assert(rest.deep_view() =~= seq![buf@.subrange(start as int, end as int)] + tail);
                Ok((rest, after))
            },
            Err(e) => Err(e),
        }
    }
}

/// Follows the compression pointer at `pos` of `buf`: the name is the one at
/// the offset it points to, and reading goes on after the pointer's two bytes.
fn decode_compressed_name(buf: &[u8], pos: usize, hops: u32) -> (r: Result<
    (Vec<Vec<u8>>, usize),
    DnsError,
>)
    requires
        pos < buf@.len(),
        buf@[pos as int] >= 64,
    ensures
        match labels_at(buf@, pos as int, hops as nat) {
            Ok((ls, end)) => (r matches Ok((v, e)) && v.deep_view() == ls && e == end),
            Err(err) => r == Err::<(Vec<Vec<u8>>, usize), DnsError>(err),
        },
    decreases hops, buf@.len() - pos, 0int,
{
    if buf.len() - pos < 2 {
        return Err(DnsError::TruncatedName);
    }
    let hi = buf[pos];
    let lo = buf[pos + 1];
    assert(hi & 0b0011_1111 == hi % 64) by (bit_vector);
    let target = ((hi & 0b0011_1111) as usize) * 256 + lo as usize;
    if target >= buf.len() || hops == 0 {
        return Err(DnsError::InvalidCompressionPointer);
    }
    match decode_labels(buf, target, hops - 1) {
        Ok((labels, _)) => Ok((labels, pos + 2)),
        Err(e) => Err(e),
    }
}

/// Concatenates the labels with a dot between each two.
fn join_with_dots(labels: &Vec<Vec<u8>>) -> (r: Vec<u8>)
    ensures
        r@ == join_labels(labels.deep_view()),
{
    let mut out: Vec<u8> = Vec::new();
    let mut i: usize = 0;
    while i < labels.len()
        invariant
            i <= labels@.len(),
            out@ == join_labels(labels.deep_view().subrange(0, i as int)),
        decreases labels@.len() - i,
    {
        let ghost done = labels.deep_view().subrange(0, i as int);
        let ghost next = labels.deep_view().subrange(0, i as int + 1);
        assert(next.drop_last() =~= done);
        if i > 0 {
            out.push(DOT);
        }
        let label = &labels[i];
        let mut j: usize = 0;
        let ghost before = out@;
        while j < label.len()
            invariant
                j <= label@.len(),
                out@ == before + label@.subrange(0, j as int),
            decreases label@.len() - j,
        {
            out.push(label[j]);
            j = j + 1;
            assert(out@ =~= before + label@.subrange(0, j as int));
        }
        assert(label@.subrange(0, j as int) =~= label@);
        assert(out@ =~= join_labels(next));
        i = i + 1;
    }
    assert(labels.deep_view().subrange(0, i as int) =~= labels.deep_view());
    out
}

/// Decodes the possibly compressed name at the cursor's position as dotted
/// bytes, and moves the cursor past it. On an error the cursor stays where
/// it was.
pub fn decode_name(value: &mut ByteCursor) -> (r: Result<Vec<u8>, DnsError>)
    ensures
        final(value).bytes@ == old(value).bytes@,
        match decoded_name(old(value).bytes@, old(value).pos as int) {
            Ok((name, end)) => (r matches Ok(v) && v@ == name) && final(value).pos == end,
            Err(e) => r == Err::<Vec<u8>, DnsError>(e) && final(value).pos == old(value).pos,
        },
{
    match decode_labels(value.bytes, value.pos, MAX_POINTER_HOPS) {
        Ok((labels, end)) => {
            value.pos = end;
            Ok(join_with_dots(&labels))
        },
        Err(e) => Err(e),
    }
}

} // verus!
