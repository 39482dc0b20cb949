//! The revision of a history manifest: one line per file (its path, whether
//! it exists and its revision, separated by NUL bytes), the lines sorted as
//! strings compare and joined by newlines, then digested.
use vstd::prelude::*;
use vstd::utf8::encode_utf8;
use crate::edit::{HistoryFileRevision, blake3_hex, revision};

verus! {

/// Byte strings in lexicographic order, the order of `String`s.
pub open spec fn bytes_lt(a: Seq<u8>, b: Seq<u8>) -> bool
    decreases a.len(),
{
    if b.len() == 0 {
        false
    } else if a.len() == 0 {
        true
    } else if a[0] != b[0] {
        a[0] < b[0]
    } else {
        bytes_lt(a.drop_first(), b.drop_first())
    }
}

pub open spec fn bytes_sorted(s: Seq<Seq<u8>>) -> bool {
    forall|i: int, j: int| 0 <= i < j < s.len() ==> !bytes_lt(#[trigger] s[j], #[trigger] s[i])
}

pub proof fn lemma_bytes_lt_irreflexive(a: Seq<u8>)
    ensures
        !bytes_lt(a, a),
    decreases a.len(),
{
    if a.len() > 0 {
        lemma_bytes_lt_irreflexive(a.drop_first());
    }
}

pub proof fn lemma_bytes_lt_transitive(a: Seq<u8>, b: Seq<u8>, c: Seq<u8>)
    requires
        bytes_lt(a, b),
        bytes_lt(b, c),
    ensures
        bytes_lt(a, c),
    decreases a.len(),
{
    if a.len() > 0 && a[0] == b[0] && b[0] == c[0] {
        lemma_bytes_lt_transitive(a.drop_first(), b.drop_first(), c.drop_first());
    }
}

pub proof fn lemma_bytes_lt_asymmetric(a: Seq<u8>, b: Seq<u8>)
    requires
        bytes_lt(a, b),
    ensures
        !bytes_lt(b, a),
    decreases a.len(),
{
    if a.len() > 0 && a[0] == b[0] {
        lemma_bytes_lt_asymmetric(a.drop_first(), b.drop_first());
    }
}

pub proof fn lemma_bytes_lt_total(a: Seq<u8>, b: Seq<u8>)
    requires
        a != b,
    ensures
        bytes_lt(a, b) || bytes_lt(b, a),
    decreases a.len(),
{
    if a.len() > 0 && b.len() > 0 && a[0] == b[0] {
        if a.drop_first() == b.drop_first() {
            assert(a =~= seq![a[0]] + a.drop_first());
            assert(b =~= seq![b[0]] + b.drop_first());
        }
        lemma_bytes_lt_total(a.drop_first(), b.drop_first());
    } else if a.len() == 0 && b.len() == 0 {
        assert(a =~= b);
    }
}

/// The lines joined by newline bytes.
pub open spec fn join_lines(s: Seq<Seq<u8>>) -> Seq<u8>
    decreases s.len(),
{
    if s.len() == 0 {
        Seq::empty()
    } else if s.len() == 1 {
        s[0]
    } else {
        join_lines(s.drop_last()) + seq![10u8] + s.last()
    }
}

/// The manifest line of a file: `path NUL exists NUL revision`, as UTF-8.
pub open spec fn manifest_line(file: HistoryFileRevision) -> Seq<u8> {
    encode_utf8(file.relative_path@) + seq![0u8] + encode_utf8(
        if file.exists {
            "true"@
        } else {
            "false"@
        },
    ) + seq![0u8] + encode_utf8(file.revision@)
}

pub open spec fn manifest_lines(files: Seq<HistoryFileRevision>) -> Seq<Seq<u8>> {
    files.map_values(|f: HistoryFileRevision| manifest_line(f))
}

/// The revision of a manifest: the digest of its lines in sorted order.
pub open spec fn is_manifest_revision(files: Seq<HistoryFileRevision>, rev: Seq<char>) -> bool {
    exists|sorted: Seq<Seq<u8>>|
        bytes_sorted(sorted) && sorted.to_multiset() == manifest_lines(files).to_multiset() && rev
            == blake3_hex(join_lines(sorted))
}

fn push_bytes(out: &mut Vec<u8>, bytes: &[u8])
    ensures
        final(out)@ == old(out)@ + bytes@,
{
    let ghost start = out@;
    let mut i: usize = 0;
    while i < bytes.len()
        invariant
            i <= bytes.len(),
            out@ =~= start + bytes@.subrange(0, i as int),
        decreases bytes.len() - i,
    {
        out.push(bytes[i]);
        i = i + 1;
    }
    assert(bytes@.subrange(0, i as int) =~= bytes@);
}

fn manifest_line_bytes(file: &HistoryFileRevision) -> (line: Vec<u8>)
    ensures
        line@ == manifest_line(*file),
{
    let mut line: Vec<u8> = Vec::new();
    push_bytes(&mut line, file.relative_path.as_str().as_bytes());
    line.push(0);
    if file.exists {
        push_bytes(&mut line, "true".as_bytes());
    } else {
        push_bytes(&mut line, "false".as_bytes());
    }
    line.push(0);
    push_bytes(&mut line, file.revision.as_str().as_bytes());
    line
}

fn bytes_less(a: &Vec<u8>, b: &Vec<u8>) -> (lt: bool)
    ensures
        lt == bytes_lt(a@, b@),
{
    let mut i: usize = 0;
    assert(a@.subrange(0, a@.len() as int) =~= a@);
    assert(b@.subrange(0, b@.len() as int) =~= b@);
    while i < a.len() && i < b.len() && a[i] == b[i]
        invariant
            i <= a@.len(),
            i <= b@.len(),
            bytes_lt(a@, b@) == bytes_lt(a@.subrange(i as int, a@.len() as int), b@.subrange(
                i as int,
                b@.len() as int,
            )),
        decreases a.len() - i,
    {
        proof {
            let sa = a@.subrange(i as int, a@.len() as int);
            let sb = b@.subrange(i as int, b@.len() as int);
            assert(sa.drop_first() =~= a@.subrange(i + 1, a@.len() as int));
            assert(sb.drop_first() =~= b@.subrange(i + 1, b@.len() as int));
        }
        i = i + 1;
    }
    if i >= b.len() {
        false
    } else if i >= a.len() {
        true
    } else {
        a[i] < b[i]
    }
}

/// Inserts a line after every line that does not sort after it.
fn insert_sorted(sorted: &mut Vec<Vec<u8>>, line: Vec<u8>)
    requires
        bytes_sorted(old(sorted)@.map_values(|l: Vec<u8>| l@)),
    ensures
        bytes_sorted(final(sorted)@.map_values(|l: Vec<u8>| l@)),
        final(sorted)@.map_values(|l: Vec<u8>| l@).to_multiset() == old(sorted)@.map_values(
            |l: Vec<u8>| l@,
        ).to_multiset().insert(line@),
{
    let ghost s = sorted@.map_values(|l: Vec<u8>| l@);
    let mut k: usize = 0;
    while k < sorted.len() && !bytes_less(&line, &sorted[k])
        invariant
            k <= sorted@.len(),
            s == sorted@.map_values(|l: Vec<u8>| l@),
            bytes_sorted(s),
            forall|i: int| 0 <= i < k ==> !bytes_lt(line@, #[trigger] s[i]),
        decreases sorted.len() - k,
    {
        k = k + 1;
    }
    let ghost x = line@;
    sorted.insert(k, line);
    proof {
        let t = sorted@.map_values(|l: Vec<u8>| l@);
        assert(t =~= s.insert(k as int, x));
        assert forall|i: int, j: int| 0 <= i < j < t.len() implies !bytes_lt(
            #[trigger] t[j],
            #[trigger] t[i],
        ) by {
            if j == k {
                // t[i] == s[i] with i < k: the line does not sort before it.
                assert(t[i] == s[i]);
                if bytes_lt(x, s[i]) {
                    assert(false);
                }
            } else if i == k {
                // The line sorts before s[k] <= s[j - 1].
                assert(t[j] == s[j - 1]);
                assert(k < s.len());
                assert(bytes_lt(x, s[k as int]));
                if bytes_lt(s[j - 1], x) {
                    lemma_bytes_lt_transitive(s[j - 1], x, s[k as int]);
                    if j - 1 > k {
                        assert(!bytes_lt(s[j - 1], s[k as int]));
                    } else {
                        lemma_bytes_lt_irreflexive(s[k as int]);
                    }
                }
            } else if j < k {
                assert(t[i] == s[i] && t[j] == s[j]);
            } else if i < k {
                assert(t[i] == s[i] && t[j] == s[j - 1]);
            } else {
                assert(t[i] == s[i - 1] && t[j] == s[j - 1]);
            }
        }
        vstd::seq_lib::to_multiset_insert(s, k as int, x);
    }
}

/// The revision of a history manifest.
pub fn manifest_revision(files: &Vec<HistoryFileRevision>) -> (rev: String)
    ensures
        is_manifest_revision(files@, rev@),
{
    let ghost lines = manifest_lines(files@);
    let mut canonical: Vec<Vec<u8>> = Vec::new();
    let mut i: usize = 0;
    assert(canonical@.map_values(|l: Vec<u8>| l@) =~= Seq::<Seq<u8>>::empty());
    assert(lines.subrange(0, 0) =~= Seq::<Seq<u8>>::empty());
    while i < files.len()
        invariant
            i <= files@.len(),
            lines == manifest_lines(files@),
            bytes_sorted(canonical@.map_values(|l: Vec<u8>| l@)),
            canonical@.map_values(|l: Vec<u8>| l@).to_multiset() == lines.subrange(
                0,
                i as int,
            ).to_multiset(),
        decreases files.len() - i,
    {
        let line = manifest_line_bytes(&files[i]);
        insert_sorted(&mut canonical, line);
        proof {
            assert(lines.subrange(0, i + 1) =~= lines.subrange(0, i as int).push(lines[i as int]));
            vstd::seq_lib::to_multiset_build(lines.subrange(0, i as int), lines[i as int]);
        }
        i = i + 1;
    }
    assert(lines.subrange(0, i as int) =~= lines);
    let ghost sorted = canonical@.map_values(|l: Vec<u8>| l@);
    let mut joined: Vec<u8> = Vec::new();
    let mut k: usize = 0;
    while k < canonical.len()
        invariant
            k <= canonical@.len(),
            sorted == canonical@.map_values(|l: Vec<u8>| l@),
            joined@ == join_lines(sorted.subrange(0, k as int)),
        decreases canonical.len() - k,
    {
        proof {
            let p = sorted.subrange(0, k + 1);
            assert(p.drop_last() =~= sorted.subrange(0, k as int));
            if k == 0 {
                assert(p =~= seq![sorted[0]]);
            }
        }
        if k > 0 {
            joined.push(10);
        }
        push_bytes(&mut joined, canonical[k].as_slice());
        proof {
            let p = sorted.subrange(0, k + 1);
            if k == 0 {
                assert(joined@ =~= p[0]);
            } else {
                assert(joined@ =~= join_lines(p.drop_last()) + seq![10u8] + p.last());
            }
        }
        k = k + 1;
    }
    assert(sorted.subrange(0, k as int) =~= sorted);
    revision(joined.as_slice())
}

proof fn lemma_sorted_max(s: Seq<Seq<u8>>, x: Seq<u8>)
    requires
        bytes_sorted(s),
        s.len() > 0,
        s.contains(x),
    ensures
        !bytes_lt(s.last(), x),
{
    let i = choose|i: int| 0 <= i < s.len() && s[i] == x;
    if i < s.len() - 1 {
        assert(!bytes_lt(s[s.len() - 1], s[i]));
    } else {
        lemma_bytes_lt_irreflexive(x);
    }
}

proof fn lemma_drop_last_multiset<A>(s: Seq<A>)
    requires
        s.len() > 0,
    ensures
        s.drop_last().to_multiset() == s.to_multiset().remove(s.last()),
{
    assert(s.remove(s.len() - 1) =~= s.drop_last());
    vstd::seq_lib::to_multiset_remove(s, s.len() - 1);
}

/// Two sorted arrangements of the same lines are the same.
proof fn lemma_sorted_unique(s1: Seq<Seq<u8>>, s2: Seq<Seq<u8>>)
    requires
        bytes_sorted(s1),
        bytes_sorted(s2),
        s1.to_multiset() == s2.to_multiset(),
    ensures
        s1 == s2,
    decreases s1.len(),
{
    vstd::seq_lib::to_multiset_len(s1);
    vstd::seq_lib::to_multiset_len(s2);
    if s1.len() == 0 {
        assert(s1 =~= s2);
    } else {
        let m1 = s1.last();
        let m2 = s2.last();
        vstd::seq_lib::to_multiset_contains(s1, m1);
        vstd::seq_lib::to_multiset_contains(s2, m1);
        vstd::seq_lib::to_multiset_contains(s2, m2);
        vstd::seq_lib::to_multiset_contains(s1, m2);
        assert(s1.contains(m1)) by {
            assert(s1[s1.len() - 1] == m1);
        }
        assert(s2.contains(m2)) by {
            assert(s2[s2.len() - 1] == m2);
        }
        lemma_sorted_max(s2, m1);
        lemma_sorted_max(s1, m2);
        if m1 != m2 {
            lemma_bytes_lt_total(m1, m2);
        }
        lemma_drop_last_multiset(s1);
        lemma_drop_last_multiset(s2);
        lemma_sorted_unique(s1.drop_last(), s2.drop_last());
        assert(s1 =~= s1.drop_last().push(m1));
        assert(s2 =~= s2.drop_last().push(m2));
    }
}

proof fn lemma_map_multiset(a: Seq<HistoryFileRevision>, b: Seq<HistoryFileRevision>)
    requires
        a.to_multiset() == b.to_multiset(),
    ensures
        manifest_lines(a).to_multiset() == manifest_lines(b).to_multiset(),
    decreases a.len(),
{
    vstd::seq_lib::to_multiset_len(a);
    vstd::seq_lib::to_multiset_len(b);
    if a.len() == 0 {
        assert(manifest_lines(a) =~= manifest_lines(b));
    } else {
        let x = a.last();
        vstd::seq_lib::to_multiset_contains(a, x);
        vstd::seq_lib::to_multiset_contains(b, x);
        assert(a.contains(x)) by {
            assert(a[a.len() - 1] == x);
        }
        let i = choose|i: int| 0 <= i < b.len() && b[i] == x;
        lemma_drop_last_multiset(a);
        vstd::seq_lib::to_multiset_remove(b, i);
        lemma_map_multiset(a.drop_last(), b.remove(i));
        assert(manifest_lines(a) =~= manifest_lines(a.drop_last()).push(manifest_line(x)));
        vstd::seq_lib::to_multiset_build(manifest_lines(a.drop_last()), manifest_line(x));
        assert(manifest_lines(b) =~= manifest_lines(b.remove(i)).insert(i, manifest_line(x)));
        vstd::seq_lib::to_multiset_insert(manifest_lines(b.remove(i)), i, manifest_line(x));
    }
}

/// The revision of a manifest does not depend on the order in which its
/// files are listed.
pub proof fn lemma_manifest_revision_order_independent(
    a: Seq<HistoryFileRevision>,
    b: Seq<HistoryFileRevision>,
    rev_a: Seq<char>,
    rev_b: Seq<char>,
)
    requires
        a.to_multiset() == b.to_multiset(),
        is_manifest_revision(a, rev_a),
        is_manifest_revision(b, rev_b),
    ensures
        rev_a == rev_b,
{
    let sa = choose|sorted: Seq<Seq<u8>>|
        bytes_sorted(sorted) && sorted.to_multiset() == manifest_lines(a).to_multiset() && rev_a
            == blake3_hex(join_lines(sorted));
    let sb = choose|sorted: Seq<Seq<u8>>|
        bytes_sorted(sorted) && sorted.to_multiset() == manifest_lines(b).to_multiset() && rev_b
            == blake3_hex(join_lines(sorted));
    lemma_map_multiset(a, b);
    lemma_sorted_unique(sa, sb);
}

} // verus!
