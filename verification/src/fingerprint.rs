//! Fingerprints: hashes of normalized trees, and their hex form.
use vstd::bytes::{spec_u64_from_le_bytes, spec_u64_to_le_bytes, u64_to_le_bytes};
use vstd::prelude::*;
use vstd::relations::{sorted_by, total_ordering};

use crate::stable_hash::{concat_all, fnv1a, lemma_concat_all_push, lemma_fnv_concat, StableHasher, FNV_OFFSET_BASIS};
use crate::node::{
    lemma_trees_of, trees_of, tree_of, KindView, NodeKind, NormalizedNode, Payload, Tree,
};

verus! {

/// The little-endian bytes of a number.
pub open spec fn word(x: nat) -> Seq<u8> {
    spec_u64_to_le_bytes(x as u64)
}

/// The bytes of the characters of a name: its length, then each character.
pub open spec fn name_bytes(s: Seq<char>) -> Seq<u8>
    decreases s.len(),
{
    if s.len() == 0 {
        Seq::empty()
    } else {
        name_bytes(s.drop_last()) + word(s[s.len() - 1] as nat)
    }
}

/// The bytes of a kind's data.
pub open spec fn payload_bytes(p: Payload) -> Seq<u8> {
    match p {
        Payload::Plain => Seq::empty(),
        Payload::Slot(k, i) => seq![k.code()] + word(i),
        Payload::Lit(l) => seq![l.code()],
        Payload::Bin(o) => seq![o.code()],
        Payload::Un(o) => seq![o.code()],
        Payload::Name(s) => word(s.len()) + name_bytes(s),
        Payload::Flag(b) => seq![if b { 1u8 } else { 0u8 }],
        Payload::Receiver(a, b) => seq![if a { 1u8 } else { 0u8 }, if b { 1u8 } else { 0u8 }],
    }
}

/// The bytes of a kind.
pub open spec fn kind_bytes(k: KindView) -> Seq<u8> {
    seq![k.tag] + payload_bytes(k.payload)
}

/// The pre-order encoding of a tree: the kind, the number of children,
/// then each child.
pub open spec fn encode(t: Tree) -> Seq<u8>
    decreases t,
{
    kind_bytes(t.kind) + word(t.children.len()) + encode_all(t.children)
}

/// The encodings of a sequence of trees, one after the other.
pub open spec fn encode_all(ts: Seq<Tree>) -> Seq<u8>
    decreases ts,
{
    if ts.len() == 0 {
        Seq::empty()
    } else {
        encode_all(ts.drop_last()) + encode(ts[ts.len() - 1])
    }
}

/// Whether a kind's data is that of a node kind, with each number in it
/// fitting in 64 bits: a placeholder's index, a macro name's length.
pub open spec fn kind_fits(k: KindView) -> bool {
    match k.payload {
        Payload::Plain => !(6 <= k.tag <= 12) && k.tag != 23 && k.tag != 43 && k.tag != 56 && k.tag != 62,
        Payload::Slot(_, i) => 6 <= k.tag <= 8 && i <= u64::MAX,
        Payload::Lit(_) => k.tag == 9,
        Payload::Bin(_) => k.tag == 10,
        Payload::Un(_) => k.tag == 11,
        Payload::Name(s) => k.tag == 12 && s.len() <= u64::MAX,
        Payload::Flag(_) => k.tag == 23 || k.tag == 43 || k.tag == 56,
        Payload::Receiver(..) => k.tag == 62,
    }
}

/// Whether every node of a tree has a fitting kind and fewer children than
/// 64 bits can count.
pub open spec fn tree_fits(t: Tree) -> bool
    decreases t,
{
    &&& kind_fits(t.kind)
    &&& t.children.len() <= u64::MAX
    &&& forall|i: int| 0 <= i < t.children.len() ==> tree_fits(#[trigger] t.children[i])
}

/// The number of nodes of a tree, absent sentinels included.
pub open spec fn nodes(t: Tree) -> nat
    decreases t,
{
    1 + nodes_all(t.children)
}

/// The number of nodes of a sequence of trees.
pub open spec fn nodes_all(s: Seq<Tree>) -> nat
    decreases s,
{
    if s.len() == 0 {
        0
    } else {
        nodes_all(s.drop_last()) + nodes(s[s.len() - 1])
    }
}

/// Two byte strings that are equal after prefixes of one length have equal
/// prefixes and equal rests.
proof fn lemma_split_eq(a: Seq<u8>, x: Seq<u8>, b: Seq<u8>, y: Seq<u8>)
    requires
        a + x == b + y,
        a.len() == b.len(),
    ensures
        a == b,
        x == y,
{
    assert(a =~= (a + x).subrange(0, a.len() as int));
    assert(b =~= (b + y).subrange(0, b.len() as int));
    assert(x =~= (a + x).subrange(a.len() as int, (a + x).len() as int));
    assert(y =~= (b + y).subrange(b.len() as int, (b + y).len() as int));
}

/// `word` loses nothing below 2^64.
proof fn lemma_word(x: nat, y: nat)
    requires
        x <= u64::MAX,
        y <= u64::MAX,
    ensures
        word(x).len() == 8,
        word(x) == word(y) ==> x == y,
{
    vstd::bytes::lemma_auto_spec_u64_to_from_le_bytes();
    assert(spec_u64_from_le_bytes(spec_u64_to_le_bytes(x as u64)) == x as u64);
    assert(spec_u64_from_le_bytes(spec_u64_to_le_bytes(y as u64)) == y as u64);
}

/// A character's number is at most 0x10FFFF.
proof fn lemma_char_fits(c: char)
    ensures
        c as nat <= 0x10FFFF,
{
    vstd::utf8::char_is_scalar(c);
}

/// The bytes of a name are eight per character.
proof fn lemma_name_bytes_len(s: Seq<char>)
    ensures
        name_bytes(s).len() == 8 * s.len(),
    decreases s.len(),
{
    if s.len() > 0 {
        lemma_name_bytes_len(s.drop_last());
        lemma_char_fits(s[s.len() - 1]);
        lemma_word(s[s.len() - 1] as nat, 0);
    }
}

/// Names of one length with the same bytes are the same name.
proof fn lemma_name_bytes_injective(s1: Seq<char>, s2: Seq<char>)
    requires
        s1.len() == s2.len(),
        name_bytes(s1) == name_bytes(s2),
    ensures
        s1 == s2,
    decreases s1.len(),
{
    if s1.len() > 0 {
        let n = s1.len() - 1;
        lemma_name_bytes_len(s1.drop_last());
        lemma_name_bytes_len(s2.drop_last());
        lemma_split_eq(name_bytes(s1.drop_last()), word(s1[n] as nat), name_bytes(s2.drop_last()), word(s2[n] as nat));
        lemma_name_bytes_injective(s1.drop_last(), s2.drop_last());
        lemma_char_fits(s1[n]);
        lemma_char_fits(s2[n]);
        lemma_name_bytes_len(s1);
        lemma_word(s1[n] as nat, s2[n] as nat);
        vstd::utf8::char_u32_cast(s1[n], s1[n] as u32);
        vstd::utf8::char_u32_cast(s2[n], s2[n] as u32);
        assert(s1[n] as u32 == s2[n] as u32);
        assert(s1[n] == s2[n]);
        assert(s1 =~= s1.drop_last().push(s1[n]));
        assert(s2 =~= s2.drop_last().push(s2[n]));
    }
}

/// A fitting kind and a count are read back from their bytes, whatever
/// follows them.
proof fn lemma_kind_prefix(ka: KindView, kb: KindView, na: nat, nb: nat, x: Seq<u8>, y: Seq<u8>)
    requires
        kind_fits(ka),
        kind_fits(kb),
        na <= u64::MAX,
        nb <= u64::MAX,
        kind_bytes(ka) + word(na) + x == kind_bytes(kb) + word(nb) + y,
    ensures
        ka == kb,
        na == nb,
        x == y,
{
    let a = kind_bytes(ka) + word(na) + x;
    let b = kind_bytes(kb) + word(nb) + y;
    lemma_word(na, nb);
    lemma_word(nb, na);
    assert(a[0] == ka.tag);
    assert(b[0] == kb.tag);
    let pa = payload_bytes(ka.payload);
    let pb = payload_bytes(kb.payload);
    assert(a[0] == b[0]);
    match ka.payload {
        Payload::Name(s) => {
            assert(kb.payload is Name);
            let t = match kb.payload {
                Payload::Name(t) => t,
                _ => s,
            };
            assert(kb.payload == Payload::Name(t));
            lemma_word(s.len(), t.len());
            lemma_word(t.len(), s.len());
            lemma_name_bytes_len(s);
            lemma_name_bytes_len(t);
            assert(kind_bytes(kb) == seq![kb.tag] + (word(t.len()) + name_bytes(t)));
            assert(b =~= seq![kb.tag] + word(t.len()) + (name_bytes(t) + word(nb) + y));
            assert(kind_bytes(ka) == seq![ka.tag] + (word(s.len()) + name_bytes(s)));
            assert(a =~= seq![ka.tag] + word(s.len()) + (name_bytes(s) + word(na) + x));
            assert(a.subrange(1, 9) =~= word(s.len()));
            assert(b.subrange(1, 9) =~= word(t.len()));
        },
        Payload::Slot(_, i) => {
            lemma_word(i, 0);
            match kb.payload {
                Payload::Slot(_, j) => lemma_word(j, 0),
                _ => {},
            }
        },
        _ => {},
    }
    assert(pa.len() == pb.len());
    assert(a =~= (kind_bytes(ka) + word(na)) + x);
    assert(b =~= (kind_bytes(kb) + word(nb)) + y);
    lemma_split_eq(kind_bytes(ka) + word(na), x, kind_bytes(kb) + word(nb), y);
    lemma_split_eq(kind_bytes(ka), word(na), kind_bytes(kb), word(nb));
    assert(kind_bytes(ka) =~= seq![ka.tag] + pa);
    assert(kind_bytes(kb) =~= seq![kb.tag] + pb);
    lemma_split_eq(seq![ka.tag], pa, seq![kb.tag], pb);
    match ka.payload {
        Payload::Slot(k1, i) => {
            let (k2, j) = match kb.payload {
                Payload::Slot(k2, j) => (k2, j),
                _ => (k1, i),
            };
            lemma_word(i, j);
            lemma_split_eq(seq![k1.code()], word(i), seq![k2.code()], word(j));
            assert(pa[0] == k1.code());
            assert(pb[0] == k2.code());
        },
        Payload::Lit(l1) => {
            assert(pa[0] == l1.code());
        },
        Payload::Bin(o1) => {
            assert(pa[0] == o1.code());
        },
        Payload::Un(o1) => {
            assert(pa[0] == o1.code());
        },
        Payload::Name(s) => {
            let t = match kb.payload {
                Payload::Name(t) => t,
                _ => s,
            };
            lemma_word(s.len(), t.len());
            lemma_split_eq(word(s.len()), name_bytes(s), word(t.len()), name_bytes(t));
            lemma_name_bytes_injective(s, t);
        },
        Payload::Flag(f) => {
            assert(pa[0] == if f { 1u8 } else { 0u8 });
        },
        Payload::Receiver(r1, r2) => {
            assert(pa[0] == if r1 { 1u8 } else { 0u8 });
            assert(pa[1] == if r2 { 1u8 } else { 0u8 });
        },
        Payload::Plain => {},
    }
}

/// The encodings of two sequences in a row are the encoding of the two
/// sequences joined; likewise for the node counts.
proof fn lemma_encode_all_add(x: Seq<Tree>, y: Seq<Tree>)
    ensures
        encode_all(x + y) == encode_all(x) + encode_all(y),
        nodes_all(x + y) == nodes_all(x) + nodes_all(y),
    decreases y.len(),
{
    if y.len() == 0 {
        assert(x + y =~= x);
    } else {
        lemma_encode_all_add(x, y.drop_last());
        assert((x + y).drop_last() =~= x + y.drop_last());
        assert((x + y)[(x + y).len() - 1] == y[y.len() - 1]);
    }
}

/// The encoding of a sequence that starts with `a`.
proof fn lemma_encode_all_first(a: Tree, rest: Seq<Tree>)
    ensures
        encode_all(seq![a] + rest) == encode(a) + encode_all(rest),
        nodes_all(seq![a] + rest) == nodes(a) + nodes_all(rest),
{
    lemma_encode_all_add(seq![a], rest);
    assert(seq![a].drop_last() =~= Seq::<Tree>::empty());
    assert(encode_all(seq![a]) == encode_all(Seq::<Tree>::empty()) + encode(a));
    assert(encode_all(seq![a]) =~= encode(a));
    assert(nodes_all(seq![a]) == nodes_all(Seq::<Tree>::empty()) + nodes(a));
}

/// Sequences of fitting trees of one length are read back from their
/// encodings, whatever follows them.
proof fn lemma_encode_all_prefix(sa: Seq<Tree>, sb: Seq<Tree>, ra: Seq<u8>, rb: Seq<u8>)
    requires
        sa.len() == sb.len(),
        forall|i: int| 0 <= i < sa.len() ==> tree_fits(#[trigger] sa[i]),
        forall|i: int| 0 <= i < sb.len() ==> tree_fits(#[trigger] sb[i]),
        encode_all(sa) + ra == encode_all(sb) + rb,
    ensures
        sa == sb,
        ra == rb,
    decreases nodes_all(sa),
{
    if sa.len() == 0 {
        assert(encode_all(sa) + ra =~= ra);
        assert(encode_all(sb) + rb =~= rb);
        assert(sa =~= sb);
    } else {
        let a = sa[0];
        let b = sb[0];
        let ta = sa.drop_first();
        let tb = sb.drop_first();
        assert(sa =~= seq![a] + ta);
        assert(sb =~= seq![b] + tb);
        lemma_encode_all_first(a, ta);
        lemma_encode_all_first(b, tb);
        assert(tree_fits(a));
        assert(tree_fits(b));
        let ca = a.children + ta;
        let cb = b.children + tb;
        lemma_encode_all_add(a.children, ta);
        lemma_encode_all_add(b.children, tb);
        assert(encode_all(sa) + ra =~= kind_bytes(a.kind) + word(a.children.len()) + (encode_all(ca)
            + ra));
        assert(encode_all(sb) + rb =~= kind_bytes(b.kind) + word(b.children.len()) + (encode_all(cb)
            + rb));
        lemma_kind_prefix(
            a.kind,
            b.kind,
            a.children.len(),
            b.children.len(),
            encode_all(ca) + ra,
            encode_all(cb) + rb,
        );
        assert forall|i: int| 0 <= i < ca.len() implies tree_fits(#[trigger] ca[i]) by {
            if i < a.children.len() {
                assert(ca[i] == a.children[i]);
            } else {
                assert(ca[i] == sa[i - a.children.len() + 1]);
            }
        }
        assert forall|i: int| 0 <= i < cb.len() implies tree_fits(#[trigger] cb[i]) by {
            if i < b.children.len() {
                assert(cb[i] == b.children[i]);
            } else {
                assert(cb[i] == sb[i - b.children.len() + 1]);
            }
        }
        lemma_encode_all_prefix(ca, cb, ra, rb);
        assert(a.children =~= ca.subrange(0, a.children.len() as int));
        assert(b.children =~= cb.subrange(0, b.children.len() as int));
        assert(ta =~= ca.subrange(a.children.len() as int, ca.len() as int));
        assert(tb =~= cb.subrange(b.children.len() as int, cb.len() as int));
        assert(a == b);
        assert(sa =~= sb);
    }
}

/// The encoding of a tree loses nothing: two fitting trees with the same
/// encoding are the same tree. Trees that differ anywhere (in a
/// placeholder's index, an operator, a literal's kind, a name, the number
/// or order of children) encode differently, so fingerprints can only
/// collide through the hash.
pub proof fn law_encoding_is_injective(a: Tree, b: Tree)
    requires
        tree_fits(a),
        tree_fits(b),
        encode(a) == encode(b),
    ensures
        a == b,
{
    lemma_encode_all_first(a, Seq::empty());
    lemma_encode_all_first(b, Seq::empty());
    assert(seq![a] + Seq::<Tree>::empty() =~= seq![a]);
    assert(seq![b] + Seq::<Tree>::empty() =~= seq![b]);
    assert(encode_all(Seq::<Tree>::empty()) =~= Seq::<u8>::empty());
    assert(encode(a) + Seq::<u8>::empty() =~= encode(a));
    lemma_encode_all_prefix(seq![a], seq![b], Seq::empty(), Seq::empty());
    assert(seq![a][0] == a);
}

/// The bytes hashed for a tree determine the tree: trees that differ get
/// different fingerprints unless the hash itself collides.
pub proof fn law_node_writes_are_injective(a: Tree, b: Tree)
    requires
        tree_fits(a),
        tree_fits(b),
        concat_all(node_writes(a)) == concat_all(node_writes(b)),
    ensures
        a == b,
{
    let e = Seq::<Seq<u8>>::empty();
    assert(node_writes(a) =~= e.push(encode(a)));
    assert(node_writes(b) =~= e.push(encode(b)));
    lemma_concat_all_push(e, encode(a));
    lemma_concat_all_push(e, encode(b));
    assert(concat_all(node_writes(a)) =~= encode(a));
    assert(concat_all(node_writes(b)) =~= encode(b));
    law_encoding_is_injective(a, b);
}

/// The bytes hashed for a function determine both its signature and its
/// body: two functions that differ in either get different fingerprints
/// unless the hash itself collides.
pub proof fn law_sig_body_writes_are_injective(s1: Tree, b1: Tree, s2: Tree, b2: Tree)
    requires
        tree_fits(s1),
        tree_fits(b1),
        tree_fits(s2),
        tree_fits(b2),
        concat_all(sig_body_writes(s1, b1)) == concat_all(sig_body_writes(s2, b2)),
    ensures
        s1 == s2,
        b1 == b2,
{
    let e = Seq::<Seq<u8>>::empty();
    assert(sig_body_writes(s1, b1) =~= e.push(encode(s1)).push(encode(b1)));
    assert(sig_body_writes(s2, b2) =~= e.push(encode(s2)).push(encode(b2)));
    lemma_concat_all_push(e, encode(s1));
    lemma_concat_all_push(e.push(encode(s1)), encode(b1));
    lemma_concat_all_push(e, encode(s2));
    lemma_concat_all_push(e.push(encode(s2)), encode(b2));
    assert(concat_all(sig_body_writes(s1, b1)) =~= encode(s1) + encode(b1));
    assert(concat_all(sig_body_writes(s2, b2)) =~= encode(s2) + encode(b2));
    lemma_encode_all_first(s1, Seq::empty());
    lemma_encode_all_first(s2, Seq::empty());
    assert(seq![s1] + Seq::<Tree>::empty() =~= seq![s1]);
    assert(seq![s2] + Seq::<Tree>::empty() =~= seq![s2]);
    assert(encode_all(Seq::<Tree>::empty()) =~= Seq::<u8>::empty());
    assert(encode(s1) + Seq::<u8>::empty() =~= encode(s1));
    assert(encode(s2) + Seq::<u8>::empty() =~= encode(s2));
    lemma_encode_all_prefix(seq![s1], seq![s2], encode(b1), encode(b2));
    assert(seq![s1][0] == s1);
    assert(seq![s2][0] == s2);
    law_encoding_is_injective(b1, b2);
}

/// What the fingerprint of a tree hashes: its encoding.
pub open spec fn node_writes(t: Tree) -> Seq<Seq<u8>> {
    seq![encode(t)]
}

/// What the fingerprint of a function hashes: the encoding of its
/// signature, then that of its body.
pub open spec fn sig_body_writes(sig: Tree, body: Tree) -> Seq<Seq<u8>> {
    seq![encode(sig), encode(body)]
}

/// The stable hash of the given writes: FNV-1a over their bytes, one
/// write after the other. It depends on the bytes alone, so a fingerprint
/// is the same on every platform and with every toolchain.
pub open spec fn hash_of_writes(writes: Seq<Seq<u8>>) -> u64 {
    fnv1a(concat_all(writes))
}

/// A fingerprint of a normalized tree, wrapping a 64-bit hash.
#[derive(Clone, Copy, Debug, PartialEq, Eq, Hash, PartialOrd, Ord, Structural)]
pub struct Fingerprint(pub u64);

fn push_word(out: &mut Vec<u8>, x: u64)
    ensures
        final(out)@ == old(out)@ + spec_u64_to_le_bytes(x),
{
    let mut bytes = u64_to_le_bytes(x);
    out.append(&mut bytes);
}

fn push_name(out: &mut Vec<u8>, name: &String)
    ensures
        final(out)@ == old(out)@ + word(name@.len()) + name_bytes(name@),
{
    let n = name.as_str().unicode_len();
    push_word(out, n as u64);
    let ghost start = out@;
    let ghost s = name@;
    for i in 0..n
        invariant
            n == s.len(),
            s == name@,
            out@ == start + name_bytes(s.take(i as int)),
    {
        let c = name.as_str().get_char(i);
        push_word(out, c as u32 as u64);
        proof {
            assert(s.take(i + 1).drop_last() =~= s.take(i as int));
            assert((c as u32 as u64) as nat == c as nat);
        }
    }
    proof {
        assert(s.take(n as int) =~= s);
    }
}

fn push_kind(out: &mut Vec<u8>, kind: &NodeKind)
    ensures
        final(out)@ == old(out)@ + kind_bytes(kind@),
{
    out.push(kind.variant_tag());
    match kind {
        NodeKind::Placeholder(k, i) | NodeKind::TypePlaceholder(k, i) | NodeKind::PatPlaceholder(
            k,
            i,
        ) => {
            out.push(k.variant_code());
            push_word(out, *i as u64);
        },
        NodeKind::Literal(l) => out.push(l.variant_code()),
        NodeKind::BinaryOp(o) => out.push(o.variant_code()),
        NodeKind::UnaryOp(o) => out.push(o.variant_code()),
        NodeKind::MacroCall { name } => push_name(out, name),
        NodeKind::Reference { mutable } | NodeKind::TypeReference { mutable }
        | NodeKind::PatReference { mutable } => out.push(
            if *mutable {
                1
            } else {
                0
            },
        ),
        NodeKind::SelfParam { reference, mutable } => {
            out.push(
                if *reference {
                    1
                } else {
                    0
                },
            );
            out.push(
                if *mutable {
                    1
                } else {
                    0
                },
            );
        },
        _ => {},
    }
    assert(out@ =~= old(out)@ + kind_bytes(kind@));
}

fn push_tree(out: &mut Vec<u8>, node: &NormalizedNode)
    ensures
        final(out)@ == old(out)@ + encode(node@),
    decreases node,
{
    let ghost start = out@;
    push_kind(out, &node.kind);
    let n = node.children.len();
    push_word(out, n as u64);
    let ghost kids = trees_of(node.children@);
    proof {
        lemma_trees_of(node.children@);
    }
    let ghost mid = out@;
    for i in 0..n
        invariant
            n == node.children@.len(),
            kids == trees_of(node.children@),
            kids.len() == n,
            forall|j: int| 0 <= j < n ==> #[trigger] kids[j] == tree_of(node.children@[j]),
            out@ == mid + encode_all(kids.take(i as int)),
    {
        proof {
            assert(kids.take(i + 1).drop_last() =~= kids.take(i as int));
            assert(decreases_to!(node.children => node.children@[i as int]));
        }
        push_tree(out, &node.children[i]);
        proof {
            assert(out@ =~= mid + encode_all(kids.take(i + 1)));
        }
    }
    proof {
        assert(kids.take(n as int) =~= kids);
        assert(out@ =~= start + encode(node@));
    }
}

/// The encoding of a tree as bytes.
pub fn encode_node(node: &NormalizedNode) -> (r: Vec<u8>)
    ensures
        r@ == encode(node@),
{
    let mut out: Vec<u8> = Vec::new();
    push_tree(&mut out, node);
    assert(out@ =~= encode(node@));
    out
}

impl Fingerprint {
    /// The fingerprint of a normalized tree.
    pub fn from_node(node: &NormalizedNode) -> (r: Fingerprint)
        ensures
            r.0 == hash_of_writes(node_writes(node@)),
    {
        let bytes = encode_node(node);
        let mut hasher = StableHasher::new();
        hasher.write_bytes(bytes.as_slice());
        proof {
            let e = Seq::<Seq<u8>>::empty();
            assert(seq![encode(node@)] =~= e.push(encode(node@)));
            lemma_concat_all_push(e, encode(node@));
            assert(concat_all(seq![encode(node@)]) =~= encode(node@));
        }
        Fingerprint(hasher.finish())
    }

    /// The fingerprint of a signature and a body, hashed in that order.
    pub fn from_sig_and_body(sig: &NormalizedNode, body: &NormalizedNode) -> (r: Fingerprint)
        ensures
            r.0 == hash_of_writes(sig_body_writes(sig@, body@)),
    {
        let s = encode_node(sig);
        let b = encode_node(body);
        let mut hasher = StableHasher::new();
        hasher.write_bytes(s.as_slice());
        hasher.write_bytes(b.as_slice());
        proof {
            let w = seq![encode(sig@), encode(body@)];
            let e = Seq::<Seq<u8>>::empty();
            assert(w =~= e.push(encode(sig@)).push(encode(body@)));
            lemma_concat_all_push(e, encode(sig@));
            lemma_concat_all_push(e.push(encode(sig@)), encode(body@));
            assert(concat_all(w) =~= encode(sig@) + encode(body@));
            lemma_fnv_concat(FNV_OFFSET_BASIS, encode(sig@), encode(body@));
        }
        Fingerprint(hasher.finish())
    }

    /// The raw value.
    pub fn value(self) -> (r: u64)
        ensures
            r == self.0,
    {
        self.0
    }
}


/// The lowercase hex digit of a number below 16.
pub open spec fn hex_char(d: nat) -> char {
    if d < 10 {
        (('0' as nat) + d) as char
    } else {
        (('a' as nat) + d - 10) as char
    }
}

/// The value of a hex digit, upper or lower case.
pub open spec fn hex_value(c: char) -> Option<nat> {
    if '0' as nat <= c as nat <= '9' as nat {
        Some((c as nat - '0' as nat) as nat)
    } else if 'a' as nat <= c as nat <= 'f' as nat {
        Some((c as nat - 'a' as nat + 10) as nat)
    } else if 'A' as nat <= c as nat <= 'F' as nat {
        Some((c as nat - 'A' as nat + 10) as nat)
    } else {
        None
    }
}

/// The number that a string of hex digits denotes, if every character is one.
pub open spec fn digits_value(s: Seq<char>) -> Option<nat>
    decreases s.len(),
{
    if s.len() == 0 {
        Some(0)
    } else {
        match (digits_value(s.drop_last()), hex_value(s[s.len() - 1])) {
            (Some(v), Some(d)) => Some(v * 16 + d),
            _ => None,
        }
    }
}

/// Base-16 parsing of an unsigned 64-bit number: an optional leading `+`,
/// then at least one hex digit, the value in range.
pub open spec fn parse_hex(s: Seq<char>) -> Option<u64> {
    let body = if s.len() > 0 && s[0] == '+' {
        s.drop_first()
    } else {
        s
    };
    if body.len() == 0 {
        None
    } else {
        match digits_value(body) {
            Some(v) => if v <= u64::MAX {
                Some(v as u64)
            } else {
                None
            },
            None => None,
        }
    }
}

/// Sixteen to the power `n`.
pub open spec fn pow16(n: nat) -> nat
    decreases n,
{
    if n == 0 {
        1
    } else {
        16 * pow16((n - 1) as nat)
    }
}

/// The last `n` hex digits of `v`, most significant first.
pub open spec fn hex_digits(v: nat, n: nat) -> Seq<char>
    decreases n,
{
    if n == 0 {
        Seq::empty()
    } else {
        hex_digits(v / 16, (n - 1) as nat).push(hex_char(v % 16))
    }
}

fn digit_str(d: u64) -> (r: &'static str)
    requires
        d < 16,
    ensures
        r@ == seq![hex_char(d as nat)],
{
    match d {
        0 => {
            proof {
                reveal_strlit("0");
            }
            "0"
        },
        1 => {
            proof {
                reveal_strlit("1");
            }
            "1"
        },
        2 => {
            proof {
                reveal_strlit("2");
            }
            "2"
        },
        3 => {
            proof {
                reveal_strlit("3");
            }
            "3"
        },
        4 => {
            proof {
                reveal_strlit("4");
            }
            "4"
        },
        5 => {
            proof {
                reveal_strlit("5");
            }
            "5"
        },
        6 => {
            proof {
                reveal_strlit("6");
            }
            "6"
        },
        7 => {
            proof {
                reveal_strlit("7");
            }
            "7"
        },
        8 => {
            proof {
                reveal_strlit("8");
            }
            "8"
        },
        9 => {
            proof {
                reveal_strlit("9");
            }
            "9"
        },
        10 => {
            proof {
                reveal_strlit("a");
            }
            "a"
        },
        11 => {
            proof {
                reveal_strlit("b");
            }
            "b"
        },
        12 => {
            proof {
                reveal_strlit("c");
            }
            "c"
        },
        13 => {
            proof {
                reveal_strlit("d");
            }
            "d"
        },
        14 => {
            proof {
                reveal_strlit("e");
            }
            "e"
        },
        _ => {
            proof {
                reveal_strlit("f");
            }
            "f"
        },
    }
}

fn hex_of(v: u64, n: usize) -> (r: String)
    ensures
        r@ == hex_digits(v as nat, n as nat),
    decreases n,
{
    if n == 0 {
        return String::new();
    }
    let mut s = hex_of(v / 16, n - 1);
    s.append(digit_str(v % 16));
    s
}

fn digit_of(c: char) -> (r: Option<u64>)
    ensures
        r matches Some(d) ==> hex_value(c) == Some(d as nat),
        r is None ==> hex_value(c) is None,
{
    let x = c as u32;
    if 48 <= x && x <= 57 {
        Some((x - 48) as u64)
    } else if 97 <= x && x <= 102 {
        Some((x - 87) as u64)
    } else if 65 <= x && x <= 70 {
        Some((x - 55) as u64)
    } else {
        None
    }
}

/// A valid prefix is worth no more than the whole.
proof fn lemma_digits_value_prefix(s: Seq<char>, i: int)
    requires
        0 <= i <= s.len(),
        digits_value(s) is Some,
    ensures
        digits_value(s.take(i)) is Some,
        digits_value(s.take(i)).unwrap() <= digits_value(s).unwrap(),
    decreases s.len() - i,
{
    if i == s.len() {
        assert(s.take(i) =~= s);
    } else {
        assert(s.take(i + 1).drop_last() =~= s.take(i));
        lemma_digits_value_prefix(s, i + 1);
    }
}

/// Parses the digits of `chars[from..]`.
fn parse_digits(text: &str, from: usize, n: usize) -> (r: Option<u64>)
    requires
        n == text@.len(),
        from <= n,
    ensures
        ({
            let body = text@.skip(from as int);
            match digits_value(body) {
                Some(v) => if v <= u64::MAX {
                    r == Some(v as u64)
                } else {
                    r is None
                },
                None => r is None,
            }
        }),
{
    let ghost body = text@.skip(from as int);
    let mut acc: u64 = 0;
    let mut i = from;
    assert(body.take(0) =~= Seq::<char>::empty());
    while i < n
        invariant
            from <= i <= n,
            n == text@.len(),
            body == text@.skip(from as int),
            digits_value(body.take(i - from)) == Some(acc as nat),
        decreases n - i,
    {
        let c = text.get_char(i);
        proof {
            assert(body.take(i - from + 1).drop_last() =~= body.take(i - from));
            assert(body[i - from] == c);
        }
        match digit_of(c) {
            None => {
                proof {
                    if digits_value(body) is Some {
                        lemma_digits_value_prefix(body, i - from + 1);
                    }
                }
                return None;
            },
            Some(d) => {
                if acc > (u64::MAX - d) / 16 {
                    proof {
                        if digits_value(body) is Some {
                            lemma_digits_value_prefix(body, i - from + 1);
                        }
                    }
                    return None;
                }
                acc = acc * 16 + d;
                i = i + 1;
            },
        }
    }
    assert(body.take(n - from) =~= body);
    Some(acc)
}

/// Hex digits spell the number they were made from.
proof fn lemma_hex_digits_value(v: nat, n: nat)
    ensures
        hex_digits(v, n).len() == n,
        digits_value(hex_digits(v, n)) == Some(v % pow16(n)),
        forall|i: int| 0 <= i < n ==> hex_value(#[trigger] hex_digits(v, n)[i]) is Some,
    decreases n,
{
    if n > 0 {
        lemma_hex_digits_value(v / 16, (n - 1) as nat);
        let p = pow16((n - 1) as nat);
        assert(p > 0) by {
            lemma_pow16_positive((n - 1) as nat);
        }
        vstd::arithmetic::div_mod::lemma_breakdown(v as int, 16, p as int);
        let d = v % 16;
        assert(hex_value(hex_char(d)) == Some(d));
        assert(hex_digits(v, n).drop_last() == hex_digits(v / 16, (n - 1) as nat));
    }
}

proof fn lemma_pow16_positive(n: nat)
    ensures
        pow16(n) > 0,
    decreases n,
{
    if n > 0 {
        lemma_pow16_positive((n - 1) as nat);
    }
}

impl Fingerprint {
    /// The 16-digit, zero-padded, lowercase hex form.
    pub fn to_hex(self) -> (r: String)
        ensures
            r@ == hex_digits(self.0 as nat, 16),
    {
        hex_of(self.0, 16)
    }

    /// The text form, the same as [`Fingerprint::to_hex`].
    pub fn to_string(&self) -> (r: String)
        ensures
            r@ == hex_digits(self.0 as nat, 16),
    {
        hex_of(self.0, 16)
    }

    /// Parses a hex fingerprint: an optional `+`, then hex digits in either
    /// case whose value fits in 64 bits.
    pub fn from_hex(s: &str) -> (r: Option<Fingerprint>)
        ensures
            r == (match parse_hex(s@) {
                Some(v) => Some(Fingerprint(v)),
                None => None,
            }),
    {
        let n = s.unicode_len();
        let from: usize = if n > 0 && s.get_char(0) == '+' {
            1
        } else {
            0
        };
        proof {
            if from == 1 {
                assert(s@.skip(1) =~= s@.drop_first());
            } else {
                assert(s@.skip(0) =~= s@);
            }
        }
        if from == n {
            return None;
        }
        match parse_digits(s, from, n) {
            Some(v) => Some(Fingerprint(v)),
            None => None,
        }
    }
}

/// Reading back the hex form of a fingerprint gives the fingerprint.
pub proof fn law_hex_roundtrip(fp: Fingerprint)
    ensures
        parse_hex(hex_digits(fp.0 as nat, 16)) == Some(fp.0),
{
    let s = hex_digits(fp.0 as nat, 16);
    lemma_hex_digits_value(fp.0 as nat, 16);
    assert(pow16(16) == 0x1_0000_0000_0000_0000) by {
        reveal_with_fuel(pow16, 17);
    }
    assert(hex_value(s[0]) is Some);
    assert(s[0] != '+');
}

/// The order in which the values of a composite fingerprint are hashed.
pub open spec fn value_le() -> spec_fn(u64, u64) -> bool {
    |a: u64, b: u64| a <= b
}

/// The raw values of a sequence of fingerprints.
pub open spec fn values_of(fps: Seq<Fingerprint>) -> Seq<u64> {
    fps.map_values(|f: Fingerprint| f.0)
}

/// The writes that a composite fingerprint hashes: its values in ascending
/// order, each as eight little-endian bytes.
pub open spec fn composite_writes(fps: Seq<Fingerprint>) -> Seq<Seq<u8>> {
    values_of(fps).sort_by(value_le()).map_values(|v: u64| spec_u64_to_le_bytes(v))
}

proof fn lemma_value_le_total()
    ensures
        total_ordering(value_le()),
{
}

/// Sorts values ascending.
fn sort_values(v: &Vec<u64>) -> (r: Vec<u64>)
    ensures
        sorted_by(r@, value_le()),
        r@.to_multiset() == v@.to_multiset(),
{
    broadcast use vstd::seq_lib::group_to_multiset_ensures;

    let mut out: Vec<u64> = Vec::new();
    let n = v.len();
    for i in 0..n
        invariant
            n == v@.len(),
            sorted_by(out@, value_le()),
            out@.to_multiset() == v@.take(i as int).to_multiset(),
    {
        let x = v[i];
        let m = out.len();
        let mut pos: usize = 0;
        while pos < m && out[pos] <= x
            invariant
                m == out@.len(),
                pos <= m,
                forall|k: int| 0 <= k < pos ==> out@[k] <= x,
            decreases m - pos,
        {
            pos = pos + 1;
        }
        let ghost before = out@;
        out.insert(pos, x);
        proof {
            assert(v@.take(i + 1) =~= v@.take(i as int).push(x));
            vstd::seq_lib::to_multiset_insert(before, pos as int, x);
            vstd::seq_lib::to_multiset_build(v@.take(i as int), x);
            assert(out@.to_multiset() == v@.take(i + 1).to_multiset());
            assert forall|a: int, b: int| 0 <= a < b < out@.len() implies #[trigger] (value_le())(
                out@[a],
                out@[b],
            ) by {
                if b < pos {
                } else if b == pos {
                } else if a < pos {
                    assert(before[b - 1] >= x || b - 1 >= pos);
                    if pos < m {
                        assert(before[pos as int] > x);
                        assert((value_le())(before[pos as int], before[b - 1]) || pos as int == b
                            - 1);
                    }
                } else if a == pos {
                    assert(before[pos as int] > x);
                    assert((value_le())(before[pos as int], before[b - 1]) || pos as int == b - 1);
                } else {
                    assert((value_le())(before[a - 1], before[b - 1]));
                }
            }
        }
    }
    proof {
        assert(v@.take(n as int) =~= v@);
    }
    out
}

impl Fingerprint {
    /// A fingerprint of a set of fingerprints, independent of their order:
    /// the values are sorted ascending and hashed in that order.
    pub fn from_fingerprints(fps: &[Fingerprint]) -> (r: Fingerprint)
        ensures
            r.0 == hash_of_writes(composite_writes(fps@)),
    {
        let mut values: Vec<u64> = Vec::new();
        let n = fps.len();
        for i in 0..n
            invariant
                n == fps@.len(),
                values@ == values_of(fps@.take(i as int)),
        {
            values.push(fps[i].0);
            proof {
                assert(values_of(fps@.take(i + 1)) =~= values_of(fps@.take(i as int)).push(
                    fps@[i as int].0,
                ));
            }
        }
        proof {
            assert(fps@.take(n as int) =~= fps@);
        }
        let sorted = sort_values(&values);
        proof {
            lemma_value_le_total();
            values@.lemma_sort_by_ensures(value_le());
            vstd::seq_lib::lemma_sorted_unique(sorted@, values@.sort_by(value_le()), value_le());
        }
        let mut hasher = StableHasher::new();
        let m = sorted.len();
        for j in 0..m
            invariant
                m == sorted@.len(),
                hasher.value() == fnv1a(
                    concat_all(sorted@.take(j as int).map_values(|v: u64| spec_u64_to_le_bytes(v))),
                ),
        {
            let bytes = u64_to_le_bytes(sorted[j]);
            let ghost before = concat_all(sorted@.take(j as int).map_values(|v: u64| spec_u64_to_le_bytes(v)));
            hasher.write_bytes(bytes.as_slice());
            proof {
                let ws = sorted@.take(j + 1).map_values(|v: u64| spec_u64_to_le_bytes(v));
                assert(ws.drop_last() =~= sorted@.take(j as int).map_values(|v: u64| spec_u64_to_le_bytes(v)));
                assert(ws[ws.len() - 1] == spec_u64_to_le_bytes(sorted@[j as int]));
                lemma_fnv_concat(FNV_OFFSET_BASIS, before, bytes@);
            }
        }
        proof {
            assert(sorted@.take(m as int) =~= sorted@);
        }
        Fingerprint(hasher.finish())
    }
}

/// A composite fingerprint depends only on which values it is made of, with
/// their multiplicities, and not on their order.
pub proof fn law_composite_order_independent(a: Seq<Fingerprint>, b: Seq<Fingerprint>)
    requires
        values_of(a).to_multiset() == values_of(b).to_multiset(),
    ensures
        hash_of_writes(composite_writes(a)) == hash_of_writes(composite_writes(b)),
{
    lemma_value_le_total();
    values_of(a).lemma_sort_by_ensures(value_le());
    values_of(b).lemma_sort_by_ensures(value_le());
    vstd::seq_lib::lemma_sorted_unique(
        values_of(a).sort_by(value_le()),
        values_of(b).sort_by(value_le()),
        value_le(),
    );
}

} // verus!
