//! What a node provider can serve, and when one provider can stand in for
//! another.

use std::cmp::Ordering;
use vstd::prelude::*;
use vstd::string::*;

verus! {

/// The capabilities of a node provider: whether it keeps historical state
/// (`archive`) and whether it supports call tracing (`traces`).
#[derive(Clone, Copy, Debug, PartialEq, Eq, Structural)]
pub struct NodeCapabilities {
    pub archive: bool,
    pub traces: bool,
}

impl NodeCapabilities {
    /// `self` offers every capability that `required` asks for.
    pub open spec fn spec_dominates(&self, required: &NodeCapabilities) -> bool {
        (required.archive ==> self.archive) && (required.traces ==> self.traces)
    }

    /// `self` dominates `other` and differs from it.
    pub open spec fn strictly_dominates(&self, other: &NodeCapabilities) -> bool {
        self.spec_dominates(other) && *self != *other
    }

    /// The ranking order. `Greater` and `Equal` together are dominance; every
    /// other pair, incomparable pairs included, is `Less`. Two incomparable
    /// values are therefore each `Less` than the other, so this is not a total
    /// order.
    pub open spec fn ranking(&self, other: &NodeCapabilities) -> Ordering {
        if *self == *other {
            Ordering::Equal
        } else if self.spec_dominates(other) {
            Ordering::Greater
        } else {
            Ordering::Less
        }
    }

    /// Whether a provider with these capabilities can serve a request that
    /// needs `required`.
    #[verifier::when_used_as_spec(spec_dominates)]
    pub fn dominates(&self, required: &NodeCapabilities) -> (r: bool)
        ensures
            r == self.spec_dominates(required),
    {
        (self.archive || !required.archive) && (self.traces || !required.traces)
    }

    /// Whether `self` ranks above `other`: it offers all that `other` offers
    /// and more.
    pub fn outranks(&self, other: &NodeCapabilities) -> (r: bool)
        ensures
            r == self.strictly_dominates(other),
    {
        match self.cmp(other) {
            Ordering::Greater => true,
            _ => false,
        }
    }

    /// Compares two capability sets for ranking.
    pub fn cmp(&self, other: &NodeCapabilities) -> (r: Ordering)
        ensures
            r == self.ranking(other),
            (r == Ordering::Greater || r == Ordering::Equal) <==> self.dominates(other),
    {
        if self.archive == other.archive && self.traces == other.traces {
            Ordering::Equal
        } else if self.dominates(other) {
            Ordering::Greater
        } else {
            Ordering::Less
        }
    }
}

/// The fields of a comma-separated list, in order. A list without a comma is
/// one field, the empty list is one empty field, and a comma at the end is
/// followed by an empty field.
pub open spec fn fields(list: Seq<char>) -> Seq<Seq<char>>
    decreases list.len(),
{
    if list.len() == 0 {
        seq![Seq::empty()]
    } else if list.last() == ',' {
        fields(list.drop_last()).push(Seq::empty())
    } else {
        let before = fields(list.drop_last());
        before.drop_last().push(before.last().push(list.last()))
    }
}

/// A list has at least one field.
pub proof fn fields_not_empty(list: Seq<char>)
    ensures
        fields(list).len() >= 1,
    decreases list.len(),
{
    if list.len() > 0 {
        fields_not_empty(list.drop_last());
    }
}

/// A text without a comma is the only field of the list that it makes.
pub proof fn fields_of_word(word: Seq<char>)
    requires
        !word.contains(','),
    ensures
        fields(word) == seq![word],
    decreases word.len(),
{
    if word.len() == 0 {
        assert(word =~= Seq::empty());
    } else {
        let shorter = word.drop_last();
        assert(word[word.len() - 1] != ',');
        assert(!shorter.contains(',')) by {
            if shorter.contains(',') {
                let k = choose|k: int| 0 <= k < shorter.len() && shorter[k] == ',';
                assert(word[k] == ',');
            }
        }
        fields_of_word(shorter);
        assert(shorter.push(word.last()) =~= word);
        assert(seq![shorter].drop_last().push(seq![shorter].last().push(word.last())) =~= seq![
            word,
        ]);
    }
}

/// The fields of two lists joined by a comma are the fields of the first
/// followed by the fields of the second.
pub proof fn fields_of_joined(left: Seq<char>, right: Seq<char>)
    ensures
        fields(left + seq![','] + right) == fields(left) + fields(right),
    decreases right.len(),
{
    let joined = left + seq![','] + right;
    if right.len() == 0 {
        assert(joined.drop_last() =~= left);
        assert(fields(left).push(Seq::empty()) =~= fields(left) + fields(right));
    } else {
        let shorter = right.drop_last();
        fields_of_joined(left, shorter);
        fields_not_empty(shorter);
        assert(joined.drop_last() =~= left + seq![','] + shorter);
        assert(joined.last() == right.last());
        let before = fields(left) + fields(shorter);
        if right.last() == ',' {
            assert(before.push(Seq::empty()) =~= fields(left) + fields(shorter).push(Seq::empty()));
        } else {
            assert(before.last() == fields(shorter).last());
            assert(before.drop_last() =~= fields(left) + fields(shorter).drop_last());
            assert(before.drop_last().push(before.last().push(right.last())) =~= fields(left)
                + fields(shorter).drop_last().push(fields(shorter).last().push(right.last())));
        }
    }
}

/// The capabilities that a comma-separated list names: `archive` where one
/// of its fields is the word "archive", `traces` where one is "traces". Every
/// other field is passed over.
pub open spec fn named_capabilities(list: Seq<char>) -> NodeCapabilities {
    NodeCapabilities {
        archive: fields(list).contains("archive"@),
        traces: fields(list).contains("traces"@),
    }
}

/// The text that describes a capability set.
pub open spec fn description(capabilities: NodeCapabilities) -> Seq<char> {
    if capabilities.archive && capabilities.traces {
        "archive, trace"@
    } else if capabilities.traces {
        "full, trace"@
    } else if capabilities.archive {
        "archive"@
    } else {
        "full"@
    }
}

/// A list that got one more field holds what it held before and that field.
proof fn contains_after_push(list: Seq<Seq<char>>, field: Seq<char>)
    ensures
        forall|word: Seq<char>|
            list.push(field).contains(word) <==> list.contains(word) || word == field,
{
    let longer = list.push(field);
    assert forall|word: Seq<char>| longer.contains(word) <==> list.contains(word) || word
        == field by {
        if list.contains(word) {
            let k = choose|k: int| 0 <= k < list.len() && list[k] == word;
            assert(longer[k] == word);
        }
        if word == field {
            assert(longer[longer.len() - 1] == word);
        }
    }
}

/// Whether the characters read so far spell `word`.
fn spells(field: &Vec<char>, word: &str) -> (r: bool)
    ensures
        r == (field@ == word@),
{
    let n = word.unicode_len();
    if field.len() != n {
        return false;
    }
    let mut i: usize = 0;
    while i < n
        invariant
            n == field@.len(),
            n == word@.len(),
            i <= n,
            forall|k: int| 0 <= k < i ==> field@[k] == word@[k],
        decreases n - i,
    {
        if field[i] != word.get_char(i) {
            return false;
        }
        i += 1;
    }
    assert(field@ =~= word@);
    true
}

impl NodeCapabilities {
    /// Reads a capability set from a comma-separated list of capability
    /// names. Names other than "archive" and "traces" are ignored.
    pub fn parse(list: &str) -> (capabilities: NodeCapabilities)
        ensures
            capabilities == named_capabilities(list@),
    {
        let mut archive = false;
        let mut traces = false;
        let mut field: Vec<char> = Vec::new();
        let ghost mut closed: Seq<Seq<char>> = Seq::empty();
        assert(list@.take(0) =~= Seq::<char>::empty());
        assert(seq![Seq::<char>::empty()] =~= closed.push(field@));
        for c in it: list.chars()
            invariant
                it.seq() == list@,
                fields(list@.take(it.index())) == closed.push(field@),
                archive == closed.contains("archive"@),
                traces == closed.contains("traces"@),
        {
            let ghost read = list@.take(it.index() + 1);
            assert(read.drop_last() =~= list@.take(it.index()));
            assert(read.last() == c);
            assert(closed.push(field@).drop_last() =~= closed);
            if c == ',' {
                let is_archive = spells(&field, "archive");
                let is_traces = spells(&field, "traces");
                proof {
                    contains_after_push(closed, field@);
                    closed = closed.push(field@);
                }
                archive = archive || is_archive;
                traces = traces || is_traces;
                field = Vec::new();
            } else {
                field.push(c);
            }
        }
        assert(list@.take(list@.len() as int) =~= list@);
        let is_archive = spells(&field, "archive");
        let is_traces = spells(&field, "traces");
        proof {
            contains_after_push(closed, field@);
        }
        NodeCapabilities { archive: archive || is_archive, traces: traces || is_traces }
    }

    /// The text that describes this capability set.
    pub fn to_string(&self) -> (text: String)
        ensures
            text@ == description(*self),
    {
        if self.archive && self.traces {
            String::from_str("archive, trace")
        } else if self.traces {
            String::from_str("full, trace")
        } else if self.archive {
            String::from_str("archive")
        } else {
            String::from_str("full")
        }
    }
}

impl std::str::FromStr for NodeCapabilities {
    type Err = std::convert::Infallible;

    /// Reads a capability set as `parse` does. There is no text that it
    /// rejects.
    fn from_str(list: &str) -> (capabilities: Result<NodeCapabilities, std::convert::Infallible>)
        ensures
            capabilities == Ok::<NodeCapabilities, std::convert::Infallible>(
                named_capabilities(list@),
            ),
    {
        Ok(NodeCapabilities::parse(list))
    }
}

impl PartialOrd for NodeCapabilities {
    fn partial_cmp(&self, other: &NodeCapabilities) -> (r: Option<Ordering>) {
        Some(self.cmp(other))
    }
}

impl vstd::std_specs::cmp::PartialOrdSpecImpl for NodeCapabilities {
    open spec fn obeys_partial_cmp_spec() -> bool {
        true
    }

    open spec fn partial_cmp_spec(&self, other: &NodeCapabilities) -> Option<Ordering> {
        Some(self.ranking(other))
    }
}

/// Dominance is the conjunction of "offers archive or archive is not
/// required" and "offers traces or traces are not required".
pub proof fn dominance_by_flags(a: NodeCapabilities, b: NodeCapabilities)
    ensures
        a.dominates(&b) == ((a.archive || !b.archive) && (a.traces || !b.traces)),
{
}

/// Every capability set dominates itself.
pub proof fn dominance_reflexive(a: NodeCapabilities)
    ensures
        a.dominates(&a),
{
}

/// Two capability sets that dominate each other are the same.
pub proof fn dominance_antisymmetric(a: NodeCapabilities, b: NodeCapabilities)
    requires
        a.dominates(&b),
        b.dominates(&a),
    ensures
        a == b,
{
}

/// Dominance carries over: what dominates `b` dominates all that `b`
/// dominates.
pub proof fn dominance_transitive(a: NodeCapabilities, b: NodeCapabilities, c: NodeCapabilities)
    requires
        a.dominates(&b),
        b.dominates(&c),
    ensures
        a.dominates(&c),
{
}

/// A provider with both capabilities dominates every capability set.
pub proof fn dominance_top(x: NodeCapabilities)
    ensures
        (NodeCapabilities { archive: true, traces: true }).dominates(&x),
{
}

/// Every capability set dominates the one without capabilities.
pub proof fn dominance_bottom(x: NodeCapabilities)
    ensures
        x.dominates(&(NodeCapabilities { archive: false, traces: false })),
{
}

/// In the ranking order `a >= b` holds exactly when `a` dominates `b`, so
/// of two incomparable capability sets neither is `>=` the other.
pub proof fn ranking_agrees_with_dominance(a: NodeCapabilities, b: NodeCapabilities)
    ensures
        (a.ranking(&b) == Ordering::Greater || a.ranking(&b) == Ordering::Equal) <==> a.dominates(
            &b,
        ),
        !a.dominates(&b) && !b.dominates(&a) ==> a.ranking(&b) == Ordering::Less && b.ranking(&a)
            == Ordering::Less,
{
}

} // verus!
