//! Deterministic identities for decoded events.
//!
//! The identity of an event is the text of the emitting package's identifier,
//! the digest of its transaction, a tag for its kind and its ordinal among the
//! events of that kind in the transaction, joined by `-`.

use crate::object_id::{object_id_text, ObjectId};
use crate::text::{all_decimal_digits, decimal, digit_of, lemma_decimal_injective, lemma_decimal_shape, push_decimal};
use vstd::prelude::*;
use vstd::string::*;

verus! {

/// The kinds of event that are indexed.
#[derive(Clone, Copy, Debug, PartialEq, Eq, Structural)]
pub enum EventKind {
    Swap,
    AddLiquidity,
    RemoveLiquidity,
}

/// The tag that stands for a kind inside an identity.
pub open spec fn kind_tag(kind: EventKind) -> Seq<char> {
    match kind {
        EventKind::Swap => seq!['s', 'w', 'a', 'p'],
        EventKind::AddLiquidity => seq!['a', 'd', 'd'],
        EventKind::RemoveLiquidity => seq!['r', 'e', 'm', 'o', 'v', 'e'],
    }
}

/// All of an identity but the ordinal at its end.
pub open spec fn identity_prefix(package: Seq<u8>, digest: Seq<char>, kind: EventKind) -> Seq<
    char,
> {
    object_id_text(package) + seq!['-'] + digest + seq!['-'] + kind_tag(kind) + seq!['-']
}

/// The identity of the event of kind `kind` that package `package` emitted
/// in the transaction with digest `digest`, after `ordinal` earlier events of
/// that kind in the same transaction.
pub open spec fn identity(package: Seq<u8>, digest: Seq<char>, kind: EventKind, ordinal: nat) -> Seq<
    char,
> {
    identity_prefix(package, digest, kind) + decimal(ordinal)
}

impl EventKind {
    /// The tag that stands for this kind inside an identity.
    pub fn tag(&self) -> (t: &'static str)
        ensures
            t@ == kind_tag(*self),
    {
        proof {
            reveal_strlit("swap");
            reveal_strlit("add");
            reveal_strlit("remove");
        }
        match self {
            EventKind::Swap => {
                assert("swap"@ =~= kind_tag(EventKind::Swap));
                "swap"
            },
            EventKind::AddLiquidity => {
                assert("add"@ =~= kind_tag(EventKind::AddLiquidity));
                "add"
            },
            EventKind::RemoveLiquidity => {
                assert("remove"@ =~= kind_tag(EventKind::RemoveLiquidity));
                "remove"
            },
        }
    }
}

/// Builds the identity of an event.
pub fn assign_identity(package_id: &ObjectId, tx_digest: &str, kind: EventKind, ordinal: u64) -> (id:
    String)
    ensures
        id@ == identity(package_id@, tx_digest@, kind, ordinal as nat),
{
    let mut id = package_id.to_hex_literal();
    id.push('-');
    id.append(tx_digest);
    id.push('-');
    id.append(kind.tag());
    id.push('-');
    push_decimal(&mut id, ordinal as u128);
    assert(id@ =~= identity(package_id@, tx_digest@, kind, ordinal as nat));
    id
}

/// Two texts that end in a `-` and a run of decimal digits are equal only if
/// the runs are equal and what stands before them is equal.
proof fn lemma_split_at_digits(a1: Seq<char>, d1: Seq<char>, a2: Seq<char>, d2: Seq<char>)
    requires
        a1.len() > 0,
        a2.len() > 0,
        a1.last() == '-',
        a2.last() == '-',
        all_decimal_digits(d1),
        all_decimal_digits(d2),
        a1 + d1 == a2 + d2,
    ensures
        a1 == a2,
        d1 == d2,
{
    let s1 = a1 + d1;
    let s2 = a2 + d2;
    assert(s1.len() == s2.len());
    if d1.len() < d2.len() {
        let i = a1.len() - 1;
        assert(s1[i] == '-');
        assert(s2[i] == d2[i - a2.len()]);
        assert(digit_of(d2[i - a2.len()]) < 10);
    } else if d2.len() < d1.len() {
        let i = a2.len() - 1;
        assert(s2[i] == '-');
        assert(s1[i] == d1[i - a1.len()]);
        assert(digit_of(d1[i - a1.len()]) < 10);
    }
    assert(a1 =~= s1.subrange(0, a1.len() as int));
    assert(a2 =~= s2.subrange(0, a2.len() as int));
    assert(d1 =~= s1.subrange(a1.len() as int, s1.len() as int));
    assert(d2 =~= s2.subrange(a2.len() as int, s2.len() as int));
}

/// The part of an identity before the ordinal tells the package, the digest
/// and the kind apart.
proof fn lemma_prefix_injective(
    pa: Seq<u8>,
    d1: Seq<char>,
    k1: EventKind,
    pb: Seq<u8>,
    d2: Seq<char>,
    k2: EventKind,
)
    requires
        pa.len() == 32,
        pb.len() == 32,
        identity_prefix(pa, d1, k1) == identity_prefix(pb, d2, k2),
    ensures
        pa == pb,
        d1 == d2,
        k1 == k2,
{
    let x1 = identity_prefix(pa, d1, k1);
    let x2 = identity_prefix(pb, d2, k2);
    let t1 = object_id_text(pa);
    let t2 = object_id_text(pb);
    assert(x1[x1.len() - 2] == kind_tag(k1).last());
    assert(x2[x2.len() - 2] == kind_tag(k2).last());
    assert(k1 == k2);
    assert(x1.len() == x2.len());
    assert(d1.len() == d2.len());
    assert(t1 =~= x1.subrange(0, 66));
    assert(t2 =~= x2.subrange(0, 66));
    crate::object_id::lemma_object_id_text_injective(pa, pb);
    assert(d1 =~= x1.subrange(67, 67 + d1.len() as int));
    assert(d2 =~= x2.subrange(67, 67 + d2.len() as int));
}

/// An identity is its prefix followed by the decimal ordinal, so two events of
/// one kind in one transaction, emitted by one package, have identities that
/// differ in that suffix and nowhere else.
pub proof fn lemma_identity_differs_in_ordinal(
    package: Seq<u8>,
    digest: Seq<char>,
    kind: EventKind,
    first: nat,
    second: nat,
)
    requires
        first != second,
    ensures
        identity(package, digest, kind, first) == identity_prefix(package, digest, kind) + decimal(
            first,
        ),
        identity(package, digest, kind, second) == identity_prefix(package, digest, kind) + decimal(
            second,
        ),
        decimal(first) != decimal(second),
        identity(package, digest, kind, first) != identity(package, digest, kind, second),
{
    let a = identity_prefix(package, digest, kind);
    lemma_decimal_shape(first);
    lemma_decimal_shape(second);
    if decimal(first) == decimal(second) {
        lemma_decimal_injective(first, second);
    }
    if a + decimal(first) == a + decimal(second) {
        lemma_split_at_digits(a, decimal(first), a, decimal(second));
    }
}

/// Identities are collision free: equal identities come from the same
/// package, the same transaction digest, the same kind and the same ordinal.
pub proof fn lemma_identity_injective(
    pa: Seq<u8>,
    d1: Seq<char>,
    k1: EventKind,
    n1: nat,
    pb: Seq<u8>,
    d2: Seq<char>,
    k2: EventKind,
    n2: nat,
)
    requires
        pa.len() == 32,
        pb.len() == 32,
        identity(pa, d1, k1, n1) == identity(pb, d2, k2, n2),
    ensures
        pa == pb,
        d1 == d2,
        k1 == k2,
        n1 == n2,
{
    lemma_decimal_shape(n1);
    lemma_decimal_shape(n2);
    lemma_split_at_digits(
        identity_prefix(pa, d1, k1),
        decimal(n1),
        identity_prefix(pb, d2, k2),
        decimal(n2),
    );
    lemma_decimal_injective(n1, n2);
    lemma_prefix_injective(pa, d1, k1, pb, d2, k2);
}

} // verus!
