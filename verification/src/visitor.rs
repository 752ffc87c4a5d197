//! Kinds of visits and the key under which a visit is remembered.

use crate::text::{
    decimal_digits, is_digit, lemma_decimal_digits_alphabet, lemma_decimal_digits_injective,
    push_decimal,
};
use vstd::prelude::*;
use vstd::string::StringExecFns;

verus! {

/// What brought a visitor: a link from a member's site to the directory,
/// the badge on a member's own site, or an icon shown elsewhere. The badge
/// is the primary kind: it counts unique visitors and is announced to live
/// subscribers.
#[derive(Clone, Copy, Debug, PartialEq, Eq, Structural)]
pub enum VisitorType {
    Referrer,
    Badge,
    ICON,
}

impl VisitorType {
    /// The name of the kind as it stands in a visitor key.
    pub open spec fn label(self) -> Seq<char> {
        match self {
            VisitorType::Referrer => "Referrer"@,
            VisitorType::Badge => "Badge"@,
            VisitorType::ICON => "ICON"@,
        }
    }

    /// The name of the kind.
    pub fn name(&self) -> (text: &'static str)
        ensures
            text@ == self.label(),
    {
        match self {
            VisitorType::Referrer => "Referrer",
            VisitorType::Badge => "Badge",
            VisitorType::ICON => "ICON",
        }
    }
}

/// The key of a visit: the visitor's fingerprint, the member and the kind,
/// joined by underscores.
pub open spec fn visitor_key(fingerprint: Seq<char>, member: i64, kind: VisitorType) -> Seq<char> {
    fingerprint + "_"@ + decimal_digits(member as int) + "_"@ + kind.label()
}

/// Builds the key of a visit.
pub fn make_visitor_key(fingerprint: &str, member: i64, kind: VisitorType) -> (key: String)
    ensures
        key@ == visitor_key(fingerprint@, member, kind),
{
    let mut key = String::from_str(fingerprint);
    key.append("_");
    push_decimal(&mut key, member);
    key.append("_");
    key.append(kind.name());
    assert(key@ =~= visitor_key(fingerprint@, member, kind));
    key
}

/// Two texts that agree after their last `mark` was put between a head
/// and a tail without `mark` have the same head and the same tail.
proof fn lemma_split_at_last_mark(
    head_a: Seq<char>,
    tail_a: Seq<char>,
    head_b: Seq<char>,
    tail_b: Seq<char>,
    mark: char,
)
    requires
        forall|i: int| 0 <= i < tail_a.len() ==> #[trigger] tail_a[i] != mark,
        forall|i: int| 0 <= i < tail_b.len() ==> #[trigger] tail_b[i] != mark,
        head_a.push(mark) + tail_a == head_b.push(mark) + tail_b,
    ensures
        head_a == head_b,
        tail_a == tail_b,
{
    let left = head_a.push(mark) + tail_a;
    let right = head_b.push(mark) + tail_b;
    assert(left.len() == head_a.len() + 1 + tail_a.len());
    assert(right.len() == head_b.len() + 1 + tail_b.len());
    if head_a.len() > head_b.len() {
        assert(left[head_a.len() as int] == mark);
        assert(right[head_a.len() as int] == tail_b[head_a.len() - head_b.len() - 1]);
    } else if head_b.len() > head_a.len() {
        assert(right[head_b.len() as int] == mark);
        assert(left[head_b.len() as int] == tail_a[head_b.len() - head_a.len() - 1]);
    }
    assert(head_a =~= head_b) by {
        assert forall|i: int| 0 <= i < head_a.len() implies head_a[i] == head_b[i] by {
            assert(left[i] == head_a[i]);
            assert(right[i] == head_b[i]);
        }
    }
    assert(tail_a =~= tail_b) by {
        assert forall|i: int| 0 <= i < tail_a.len() implies tail_a[i] == tail_b[i] by {
            assert(left[head_a.len() + 1 + i] == tail_a[i]);
            assert(right[head_b.len() + 1 + i] == tail_b[i]);
        }
    }
}

/// The names of the kinds differ from one another and hold no underscore.
proof fn lemma_labels(a: VisitorType, b: VisitorType)
    ensures
        a.label() == b.label() ==> a == b,
        forall|i: int| 0 <= i < a.label().len() ==> #[trigger] a.label()[i] != '_',
{
    reveal_strlit("Referrer");
    reveal_strlit("Badge");
    reveal_strlit("ICON");
}

/// Visits with the same key are the same visit: the key tells the
/// fingerprint, the member and the kind. In particular one visitor has a
/// key of its own for each kind of visit to a member.
pub proof fn lemma_visitor_key_injective(
    fingerprint_a: Seq<char>,
    member_a: i64,
    kind_a: VisitorType,
    fingerprint_b: Seq<char>,
    member_b: i64,
    kind_b: VisitorType,
)
    requires
        visitor_key(fingerprint_a, member_a, kind_a) == visitor_key(
            fingerprint_b,
            member_b,
            kind_b,
        ),
    ensures
        fingerprint_a == fingerprint_b,
        member_a == member_b,
        kind_a == kind_b,
{
    reveal_strlit("_");
    let digits_a = decimal_digits(member_a as int);
    let digits_b = decimal_digits(member_b as int);
    let front_a = fingerprint_a.push('_') + digits_a;
    let front_b = fingerprint_b.push('_') + digits_b;
    assert("_"@ =~= seq!['_']);
    assert(visitor_key(fingerprint_a, member_a, kind_a) =~= front_a.push('_') + kind_a.label());
    assert(visitor_key(fingerprint_b, member_b, kind_b) =~= front_b.push('_') + kind_b.label());
    lemma_labels(kind_a, kind_b);
    lemma_labels(kind_b, kind_a);
    lemma_split_at_last_mark(front_a, kind_a.label(), front_b, kind_b.label(), '_');
    lemma_decimal_digits_alphabet(member_a as int);
    lemma_decimal_digits_alphabet(member_b as int);
    assert forall|i: int| 0 <= i < digits_a.len() implies #[trigger] digits_a[i] != '_' by {
        assert(is_digit(digits_a[i]) || digits_a[i] == '-');
    }
    assert forall|i: int| 0 <= i < digits_b.len() implies #[trigger] digits_b[i] != '_' by {
        assert(is_digit(digits_b[i]) || digits_b[i] == '-');
    }
    lemma_split_at_last_mark(fingerprint_a, digits_a, fingerprint_b, digits_b, '_');
    lemma_decimal_digits_injective(member_a as int, member_b as int);
}

} // verus!
