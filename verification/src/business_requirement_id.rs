//! Hierarchical identifiers for business requirements: a non-empty sequence of
//! 8-bit segments written as a dot-separated decimal string, ordered
//! lexicographically by segment values (numeric, not by string comparison).
use crate::digits::{
    all_digits, dec_of, dec_val, digit_val, digit_value, is_digit, lemma_dec_of_reads_back,
};
use crate::SpecError;
use vstd::prelude::*;

verus! {

/// The segments of a dotted string: the maximal runs of characters between
/// `'.'` occurrences, in order. The empty string has one empty segment.
pub open spec fn split_dots(s: Seq<char>) -> Seq<Seq<char>>
    decreases s.len(),
{
    if s.len() == 0 {
        seq![Seq::<char>::empty()]
    } else if s[0] == '.' {
        seq![Seq::<char>::empty()] + split_dots(s.skip(1))
    } else {
        let rest = split_dots(s.skip(1));
        seq![seq![s[0]] + rest[0]] + rest.skip(1)
    }
}

/// A split always yields at least one segment.
pub proof fn lemma_split_dots_nonempty(s: Seq<char>)
    ensures
        split_dots(s).len() >= 1,
    decreases s.len(),
{
    if s.len() == 0 {
    } else if s[0] == '.' {
        lemma_split_dots_nonempty(s.skip(1));
    } else {
        lemma_split_dots_nonempty(s.skip(1));
    }
}

/// Unfolding a split at the first dot: if the characters before position `k`
/// are not dots, and `k` is the end of the string or a dot, then the first
/// segment is exactly the prefix of length `k`.
pub proof fn lemma_split_at_first_dot(s: Seq<char>, k: int)
    requires
        0 <= k <= s.len(),
        forall|j: int| 0 <= j < k ==> s[j] != '.',
        k == s.len() || s[k] == '.',
    ensures
        k == s.len() ==> split_dots(s) == seq![s],
        k < s.len() ==> split_dots(s) == seq![s.take(k)] + split_dots(s.skip(k + 1)),
    decreases k,
{
    if k == 0 {
        if k == s.len() {
            assert(split_dots(s) =~~= seq![s]);
        } else {
            assert(s[0] == '.');
            assert(s.take(0) =~= Seq::<char>::empty());
            assert(split_dots(s) =~~= seq![s.take(0)] + split_dots(s.skip(1)));
        }
    } else {
        assert(s[0] != '.');
        let t = s.skip(1);
        lemma_split_at_first_dot(t, k - 1);
        lemma_split_dots_nonempty(t);
        let rest = split_dots(t);
        if k == s.len() {
            assert(rest == seq![t]);
            assert(seq![s[0]] + rest[0] =~= s);
            assert(split_dots(s) =~~= seq![s]);
        } else {
            assert(rest == seq![t.take(k - 1)] + split_dots(t.skip(k)));
            assert(rest[0] == t.take(k - 1));
            assert(seq![s[0]] + t.take(k - 1) =~= s.take(k));
            assert(t.skip(k) =~= s.skip(k + 1));
            assert(rest.skip(1) =~~= split_dots(t.skip(k)));
            assert(split_dots(s) =~~= seq![s.take(k)] + split_dots(s.skip(k + 1)));
        }
    }
}

/// A string without dots is a single segment.
pub proof fn lemma_split_no_dots(s: Seq<char>)
    requires
        forall|j: int| 0 <= j < s.len() ==> s[j] != '.',
    ensures
        split_dots(s) == seq![s],
{
    lemma_split_at_first_dot(s, s.len() as int);
}

/// Splitting distributes over joining two strings with a dot.
pub proof fn lemma_split_dots_concat(x: Seq<char>, y: Seq<char>)
    ensures
        split_dots(x + seq!['.'] + y) == split_dots(x) + split_dots(y),
    decreases x.len(),
{
    let s = x + seq!['.'] + y;
    if x.len() == 0 {
        assert(s =~= seq!['.'] + y);
        assert(s[0] == '.');
        assert(s.skip(1) =~= y);
        assert(split_dots(x) =~~= seq![Seq::<char>::empty()]);
        assert(split_dots(s) =~~= split_dots(x) + split_dots(y));
    } else if x[0] == '.' {
        assert(s[0] == '.');
        assert(s.skip(1) =~= x.skip(1) + seq!['.'] + y);
        lemma_split_dots_concat(x.skip(1), y);
        assert(split_dots(s) =~~= split_dots(x) + split_dots(y));
    } else {
        assert(s[0] == x[0]);
        assert(s[0] != '.');
        assert(s.skip(1) =~= x.skip(1) + seq!['.'] + y);
        lemma_split_dots_concat(x.skip(1), y);
        lemma_split_dots_nonempty(x.skip(1));
        let q = split_dots(x.skip(1));
        let r = split_dots(s.skip(1));
        assert(r == q + split_dots(y));
        assert(r[0] == q[0]);
        assert(r.skip(1) =~~= q.skip(1) + split_dots(y));
        assert(split_dots(x) == seq![seq![x[0]] + q[0]] + q.skip(1));
        assert(split_dots(s) == seq![seq![s[0]] + r[0]] + r.skip(1));
        assert(split_dots(s) =~~= split_dots(x) + split_dots(y));
    }
}

/// A well-formed segment: non-empty, all digits, value at most 255.
pub open spec fn seg_ok(p: Seq<char>) -> bool {
    p.len() > 0 && all_digits(p) && dec_val(p) <= 255
}

/// A dotted string parses as a hierarchical identifier: every segment is
/// non-empty, made of digits, and fits in eight bits.
pub open spec fn valid_id_string(s: Seq<char>) -> bool {
    forall|i: int| 0 <= i < split_dots(s).len() ==> seg_ok(#[trigger] split_dots(s)[i])
}

/// The segment values of a valid dotted string, in order.
pub open spec fn id_of(s: Seq<char>) -> Seq<u8> {
    split_dots(s).map_values(|p: Seq<char>| dec_val(p) as u8)
}

/// The dotted decimal notation of a segment sequence.
pub open spec fn display_of(segs: Seq<u8>) -> Seq<char>
    decreases segs.len(),
{
    if segs.len() == 0 {
        Seq::<char>::empty()
    } else if segs.len() == 1 {
        dec_of(segs[0] as nat)
    } else {
        display_of(segs.drop_last()) + seq!['.'] + dec_of(segs.last() as nat)
    }
}

/// Decimal notation of a byte never contains a dot.
proof fn lemma_dec_of_no_dots(n: nat)
    ensures
        forall|j: int| 0 <= j < dec_of(n).len() ==> dec_of(n)[j] != '.',
{
    lemma_dec_of_reads_back(n);
    assert forall|j: int| 0 <= j < dec_of(n).len() implies dec_of(n)[j] != '.' by {
        assert(is_digit(dec_of(n)[j]));
    }
}

/// The displayed form of a non-empty segment sequence is a valid dotted
/// string and parses back to the same segments.
pub proof fn lemma_display_round_trip(segs: Seq<u8>)
    requires
        segs.len() > 0,
    ensures
        valid_id_string(display_of(segs)),
        id_of(display_of(segs)) == segs,
    decreases segs.len(),
{
    if segs.len() == 1 {
        let d = display_of(segs);
        assert(d == dec_of(segs[0] as nat));
        lemma_dec_of_reads_back(segs[0] as nat);
        lemma_dec_of_no_dots(segs[0] as nat);
        lemma_split_no_dots(d);
        assert(seg_ok(d));
        assert(id_of(d) =~= segs);
    } else {
        let front = segs.drop_last();
        let x = display_of(front);
        let y = dec_of(segs.last() as nat);
        let d = display_of(segs);
        assert(d == x + seq!['.'] + y);
        lemma_display_round_trip(front);
        lemma_dec_of_reads_back(segs.last() as nat);
        lemma_dec_of_no_dots(segs.last() as nat);
        lemma_split_no_dots(y);
        lemma_split_dots_concat(x, y);
        assert(split_dots(d) == split_dots(x) + seq![y]);
        assert forall|i: int| 0 <= i < split_dots(d).len() implies seg_ok(
            #[trigger] split_dots(d)[i],
        ) by {
            if i < split_dots(x).len() {
                assert(split_dots(d)[i] == split_dots(x)[i]);
            } else {
                assert(split_dots(d)[i] == y);
            }
        }
        assert(id_of(d) =~= segs) by {
            assert(id_of(x) == front);
            assert forall|i: int| 0 <= i < segs.len() implies id_of(d)[i] == segs[i] by {
                if i < split_dots(x).len() {
                    assert(split_dots(d)[i] == split_dots(x)[i]);
                    assert(id_of(x)[i] == front[i]);
                } else {
                    assert(split_dots(d)[i] == y);
                    assert(dec_val(y) == segs.last() as nat);
                }
            }
        }
    }
}

/// The first segment reaches past position `t` when no dot occurs at or
/// before `t`, and agrees with the string there.
proof fn lemma_first_segment_char(s: Seq<char>, t: int)
    requires
        0 <= t < s.len(),
        forall|u: int| 0 <= u <= t ==> s[u] != '.',
    ensures
        split_dots(s)[0].len() > t,
        split_dots(s)[0][t] == s[t],
    decreases t,
{
    lemma_split_dots_nonempty(s.skip(1));
    if t == 0 {
    } else {
        lemma_first_segment_char(s.skip(1), t - 1);
    }
}

/// Reading more digits never makes the value smaller.
proof fn lemma_dec_val_prefix(p: Seq<char>, q: Seq<char>)
    requires
        p.len() <= q.len(),
        q.take(p.len() as int) == p,
    ensures
        dec_val(q) >= dec_val(p),
    decreases q.len(),
{
    if q.len() == p.len() {
        assert(q.take(p.len() as int) =~= q);
    } else {
        assert(q.drop_last().take(p.len() as int) =~= p);
        lemma_dec_val_prefix(p, q.drop_last());
        assert(dec_val(q.drop_last()) * 10 >= dec_val(q.drop_last())) by (nonlinear_arith);
    }
}

/// Scan one segment of a dotted string beginning at `start`: on success the
/// position of the segment's end (the string's end or a dot) and the
/// segment's value; an error exactly when that segment is not well formed.
#[verifier::loop_isolation(false)]
fn scan_segment(s: &str, start: usize, len: usize) -> (r: Result<(usize, u8), SpecError>)
    requires
        len == s@.len(),
        start <= len,
    ensures
        match r {
            Ok((j, v)) => {
                &&& start < j <= len
                &&& forall|u: int| start <= u < j ==> is_digit(#[trigger] s@[u])
                &&& v as nat == dec_val(s@.subrange(start as int, j as int))
                &&& j == len || s@[j as int] == '.'
            },
            Err(e) => !seg_ok(split_dots(s@.skip(start as int))[0]) && (
            e matches SpecError::ParseError(m) && m@ == s@),
        },
{
    let ghost sp = s@.skip(start as int);
    let mut j: usize = start;
    let mut val: u16 = 0;
    loop
        invariant
            start <= j <= len,
            forall|u: int| start <= u < j ==> is_digit(#[trigger] s@[u]),
            val as nat == dec_val(s@.subrange(start as int, j as int)),
            val <= 255,
        decreases len - j,
    {
        let at_end = j == len;
        let mut c = '.';
        if !at_end {
            c = s.get_char(j);
        }
        if at_end || c == '.' {
            // end of segment
            if j == start {
                proof {
                    lemma_split_at_first_dot(sp, 0);
                    if j == len {
                        assert(split_dots(sp)[0] == sp);
                        assert(sp.len() == 0);
                    } else {
                        assert(sp[0] == '.');
                        assert(split_dots(sp)[0] == sp.take(0));
                    }
                    assert(split_dots(sp)[0].len() == 0);
                }
                return Err(SpecError::ParseError(s.to_owned()));
            }
            return Ok((j, val as u8));
        }
        let ghost t = j - start;
        proof {
            assert forall|u: int| 0 <= u <= t implies sp[u] != '.' by {
                if u < t {
                    assert(is_digit(s@[start + u]));
                }
            }
            lemma_first_segment_char(sp, t);
        }
        if !('0' <= c && c <= '9') {
            proof {
                assert(split_dots(sp)[0][t] == c);
                assert(!all_digits(split_dots(sp)[0]));
            }
            return Err(SpecError::ParseError(s.to_owned()));
        }
        let d = digit_value(c);
        let nv: u16 = val * 10 + d as u16;
        proof {
            let pre = s@.subrange(start as int, j + 1);
            assert(pre.drop_last() =~= s@.subrange(start as int, j as int));
            assert(pre.last() == c);
            assert(dec_val(pre) == val * 10 + digit_val(c));
        }
        if nv > 255 {
            proof {
                let pre = s@.subrange(start as int, j + 1);
                assert forall|u: int| 0 <= u <= t implies split_dots(sp)[0][u] == sp[u] by {
                    lemma_first_segment_char(sp, u);
                }
                assert(split_dots(sp)[0].take(t + 1) =~= pre);
                lemma_dec_val_prefix(split_dots(sp)[0].take(t + 1), split_dots(sp)[0]);
                assert(!seg_ok(split_dots(sp)[0]));
            }
            return Err(SpecError::ParseError(s.to_owned()));
        }
        val = nv;
        j = j + 1;
    }
}

/// Lexicographic comparison of segment sequences: segments are compared
/// numerically from the front, and a proper prefix sorts before every
/// extension of it.
pub open spec fn seq_u8_cmp(a: Seq<u8>, b: Seq<u8>) -> core::cmp::Ordering
    decreases a.len(),
{
    if a.len() == 0 && b.len() == 0 {
        core::cmp::Ordering::Equal
    } else if a.len() == 0 {
        core::cmp::Ordering::Less
    } else if b.len() == 0 {
        core::cmp::Ordering::Greater
    } else if a[0] < b[0] {
        core::cmp::Ordering::Less
    } else if a[0] > b[0] {
        core::cmp::Ordering::Greater
    } else {
        seq_u8_cmp(a.drop_first(), b.drop_first())
    }
}

/// `a` sorts at or before `b` in the lexicographic segment order.
pub open spec fn seq_u8_le(a: Seq<u8>, b: Seq<u8>) -> bool {
    seq_u8_cmp(a, b) != core::cmp::Ordering::Greater
}

/// The comparison answers `Equal` exactly on equal sequences.
pub proof fn lemma_seq_u8_cmp_eq(a: Seq<u8>, b: Seq<u8>)
    ensures
        seq_u8_cmp(a, b) == core::cmp::Ordering::Equal <==> a == b,
    decreases a.len(),
{
    if a.len() > 0 && b.len() > 0 && a[0] == b[0] {
        lemma_seq_u8_cmp_eq(a.drop_first(), b.drop_first());
        if a.drop_first() == b.drop_first() {
            assert forall|i: int| 0 <= i < a.len() implies a[i] == b[i] by {
                if i > 0 {
                    assert(a.drop_first()[i - 1] == b.drop_first()[i - 1]);
                }
            }
            assert(a =~= b);
        }
        if a == b {
            assert(a.drop_first() =~= b.drop_first());
        }
    } else {
        if a.len() == 0 && b.len() == 0 {
            assert(a =~= b);
        }
    }
}

/// Swapping the arguments reverses the comparison.
pub proof fn lemma_seq_u8_cmp_flip(a: Seq<u8>, b: Seq<u8>)
    ensures
        seq_u8_cmp(a, b) == core::cmp::Ordering::Less <==> seq_u8_cmp(b, a)
            == core::cmp::Ordering::Greater,
    decreases a.len(),
{
    if a.len() > 0 && b.len() > 0 && a[0] == b[0] {
        lemma_seq_u8_cmp_flip(a.drop_first(), b.drop_first());
    }
}

/// Any two sequences are ordered one way or the other.
pub proof fn lemma_seq_u8_le_total(a: Seq<u8>, b: Seq<u8>)
    ensures
        seq_u8_le(a, b) || seq_u8_le(b, a),
    decreases a.len(),
{
    if a.len() > 0 && b.len() > 0 && a[0] == b[0] {
        lemma_seq_u8_le_total(a.drop_first(), b.drop_first());
    }
}

/// The lexicographic order is transitive.
pub proof fn lemma_seq_u8_le_trans(a: Seq<u8>, b: Seq<u8>, c: Seq<u8>)
    requires
        seq_u8_le(a, b),
        seq_u8_le(b, c),
    ensures
        seq_u8_le(a, c),
    decreases a.len(),
{
    if a.len() > 0 && b.len() > 0 && c.len() > 0 && a[0] == b[0] && b[0] == c[0] {
        lemma_seq_u8_le_trans(a.drop_first(), b.drop_first(), c.drop_first());
    }
}

/// Compare two segment vectors in the lexicographic order.
#[verifier::loop_isolation(false)]
fn cmp_segments(a: &Vec<u8>, b: &Vec<u8>) -> (r: core::cmp::Ordering)
    ensures
        r == seq_u8_cmp(a@, b@),
{
    let ghost ga = a@;
    let ghost gb = b@;
    let mut i: usize = 0;
    proof {
        assert(ga.skip(0) =~= ga);
        assert(gb.skip(0) =~= gb);
    }
    while i < a.len() && i < b.len()
        invariant
            i <= a.len(),
            i <= b.len(),
            seq_u8_cmp(ga, gb) == seq_u8_cmp(ga.skip(i as int), gb.skip(i as int)),
        decreases a.len() - i,
    {
        let x = a[i];
        let y = b[i];
        proof {
            assert(ga.skip(i as int)[0] == ga[i as int]);
            assert(gb.skip(i as int)[0] == gb[i as int]);
        }
        if x < y {
            return core::cmp::Ordering::Less;
        }
        if x > y {
            return core::cmp::Ordering::Greater;
        }
        proof {
            assert(ga.skip(i as int).drop_first() =~= ga.skip(i + 1));
            assert(gb.skip(i as int).drop_first() =~= gb.skip(i + 1));
        }
        i = i + 1;
    }
    if a.len() < b.len() {
        core::cmp::Ordering::Less
    } else if a.len() > b.len() {
        core::cmp::Ordering::Greater
    } else {
        core::cmp::Ordering::Equal
    }
}

/// An ordered hierarchical identifier: a non-empty sequence of 8-bit
/// segments, as parsed from a dotted decimal string such as `"1.2.3"`.
pub struct BusinessRequirementId(pub Vec<u8>);

impl PartialEq for BusinessRequirementId {
    fn eq(&self, other: &Self) -> (r: bool) {
        proof {
            lemma_seq_u8_cmp_eq(self@, other@);
        }
        match cmp_segments(&self.0, &other.0) {
            core::cmp::Ordering::Equal => true,
            _ => false,
        }
    }
}

impl vstd::std_specs::cmp::PartialEqSpecImpl for BusinessRequirementId {
    open spec fn obeys_eq_spec() -> bool {
        true
    }

    open spec fn eq_spec(&self, other: &Self) -> bool {
        self@ == other@
    }
}

impl Eq for BusinessRequirementId {

}

impl PartialOrd for BusinessRequirementId {
    fn partial_cmp(&self, other: &Self) -> (r: Option<core::cmp::Ordering>) {
        Some(cmp_segments(&self.0, &other.0))
    }
}

impl vstd::std_specs::cmp::PartialOrdSpecImpl for BusinessRequirementId {
    open spec fn obeys_partial_cmp_spec() -> bool {
        true
    }

    open spec fn partial_cmp_spec(&self, other: &Self) -> Option<core::cmp::Ordering> {
        Some(seq_u8_cmp(self@, other@))
    }
}

impl View for BusinessRequirementId {
    type V = Seq<u8>;

    open spec fn view(&self) -> Seq<u8> {
        self.0@
    }
}

impl Clone for BusinessRequirementId {
    fn clone(&self) -> (r: Self)
        ensures
            r@ == self@,
    {
        let v = self.0.clone();
        proof {
            assert(v@ =~= self.0@);
        }
        BusinessRequirementId(v)
    }
}

impl BusinessRequirementId {
    /// Parse a dotted decimal string. Every input is accepted exactly when
    /// each dot-separated part is a non-empty digit string whose value fits
    /// in eight bits; anything else is a parse error carrying the offending
    /// input.
    /// Parse a dotted decimal string. Every input is accepted exactly when
    /// each dot-separated part is a non-empty digit string whose value fits
    /// in eight bits; anything else is a parse error carrying the offending
    /// input.
    #[verifier::loop_isolation(false)]
    pub fn new(s: &str) -> (r: Result<BusinessRequirementId, SpecError>)
        ensures
            match r {
                Ok(id) => valid_id_string(s@) && id@ == id_of(s@) && id@.len() > 0,
                Err(e) => !valid_id_string(s@) && (e matches SpecError::ParseError(m) && m@ == s@),
            },
    {
        let ghost parts = split_dots(s@);
        let len = s.unicode_len();
        let mut elements: Vec<u8> = Vec::new();
        let mut start: usize = 0;
        proof {
            assert(s@.skip(0) =~= s@);
            assert(parts.skip(0) =~~= parts);
        }
        loop
            invariant
                start <= len,
                len == s@.len(),
                split_dots(s@.skip(start as int)) == parts.skip(elements@.len() as int),
                elements@.len() <= parts.len(),
                forall|q: int|
                    0 <= q < elements@.len() ==> seg_ok(#[trigger] parts[q]) && elements@[q] as nat
                        == dec_val(parts[q]),
            decreases len - start,
        {
            let ghost kk = elements@.len() as int;
            let ghost sp = s@.skip(start as int);
            proof {
                lemma_split_dots_nonempty(sp);
                assert(parts[kk] == split_dots(sp)[0]);
            }
            let scanned = scan_segment(s, start, len);
            match scanned {
                Err(e) => {
                    proof {
                        assert(!seg_ok(parts[kk]));
                        assert(!valid_id_string(s@));
                    }
                    return Err(e);
                },
                Ok((j, val)) => {
                    let ghost t = j - start;
                    let ghost seg = s@.subrange(start as int, j as int);
                    proof {
                        assert forall|u: int| 0 <= u < t implies sp[u] != '.' by {
                            assert(is_digit(s@[start + u]));
                        }
                        assert(t == sp.len() || sp[t] == '.');
                        lemma_split_at_first_dot(sp, t);
                        assert(sp.take(t) =~= seg);
                        if j < len {
                            assert(parts[kk] == sp.take(t));
                        } else {
                            assert(sp.take(t) =~= sp);
                        }
                        assert(parts[kk] == seg);
                        assert(seg_ok(seg));
                    }
                    elements.push(val);
                    if j == len {
                        proof {
                            assert(parts.skip(kk) =~~= seq![seg]);
                            assert(parts.len() == kk + 1);
                            assert(valid_id_string(s@));
                            assert(elements@ =~= id_of(s@));
                        }
                        return Ok(BusinessRequirementId(elements));
                    }
                    proof {
                        assert(split_dots(sp) == seq![sp.take(t)] + split_dots(sp.skip(t + 1)));
                        assert(sp.skip(t + 1) =~= s@.skip(j + 1));
                        assert(parts.skip(kk + 1) =~~= split_dots(sp).skip(1));
                        assert(split_dots(s@.skip(j + 1)) =~~= parts.skip(kk + 1));
                    }
                    start = j + 1;
                },
            }
        }
    }

    /// The number of segments, which determines the nesting depth.
    pub fn elements_len(&self) -> (r: usize)
        ensures
            r == self@.len(),
    {
        self.0.len()
    }

    /// The dotted decimal form of the identifier, segments joined with `'.'`.
    #[verifier::loop_isolation(false)]
    pub fn to_display_string(&self) -> (r: String)
        ensures
            r@ == display_of(self@),
    {
        proof {
            reveal_strlit(".");
        }
        let mut out = String::new();
        let mut i: usize = 0;
        while i < self.0.len()
            invariant
                i <= self.0.len(),
                out@ == display_of(self@.take(i as int)),
            decreases self.0.len() - i,
        {
            if i > 0 {
                out.append(".");
            }
            let d = crate::digits::u64_to_dec_string(self.0[i] as u64);
            out.append(d.as_str());
            proof {
                let now = self@.take(i + 1);
                assert(now.drop_last() =~= self@.take(i as int));
                assert(now.last() == self@[i as int]);
                if i == 0 {
                    assert(out@ =~= display_of(now));
                } else {
                    assert(("."@) =~= seq!['.']);
                    assert(out@ =~= display_of(now));
                }
            }
            i = i + 1;
        }
        proof {
            assert(self@.take(self.0.len() as int) =~= self@);
        }
        out
    }
}

} // verus!
