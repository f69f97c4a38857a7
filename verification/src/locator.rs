//! The directive locator: decides which attributes control lints and
//! records the spans of those that do, in source order.

use vstd::prelude::*;
use crate::position::MatchSpan;
use crate::syntax::{Annotation, HeadName, MetaArgument, MetaItem};
use crate::text::same_text;

verus! {

/// The directives that are neutralised.
#[derive(Clone, Copy, Debug, PartialEq, Eq, Structural)]
pub enum DirectivePattern {
    /// `allow(..)`
    Allow,
    /// `warn(..)`
    Warn,
    /// `deny(..)`
    Deny,
    /// `clippy::msrv = ".."`
    Msrv,
}

impl HeadName {
    /// Whether the path is the single identifier `name`, with no leading
    /// colon.
    pub open spec fn names(self, name: Seq<char>) -> bool {
        &&& !self.leading_colon
        &&& self.segments@.len() == 1
        &&& self.segments@[0]@ == name
    }

    /// Whether the path is exactly `first::second`, with no leading colon.
    pub open spec fn names_pair(self, first: Seq<char>, second: Seq<char>) -> bool {
        &&& !self.leading_colon
        &&& self.segments@.len() == 2
        &&& self.segments@[0]@ == first
        &&& self.segments@[1]@ == second
    }

    /// Decides `names`.
    pub fn is_ident(&self, name: &str) -> (r: bool)
        ensures
            r == self.names(name@),
    {
        !self.leading_colon && self.segments.len() == 1 && same_text(
            self.segments[0].as_str(),
            name,
        )
    }

    /// Decides `names_pair`.
    pub fn is_pair(&self, first: &str, second: &str) -> (r: bool)
        ensures
            r == self.names_pair(first@, second@),
    {
        !self.leading_colon && self.segments.len() == 2 && same_text(
            self.segments[0].as_str(),
            first,
        ) && same_text(self.segments[1].as_str(), second)
    }
}

impl MetaItem {
    /// The path at the head of the item.
    pub open spec fn head(self) -> HeadName {
        match self {
            MetaItem::Path(head) => head,
            MetaItem::List(head, _) => head,
            MetaItem::NameValue(head) => head,
        }
    }

    /// The path at the head of the item.
    pub fn path(&self) -> (head: &HeadName)
        ensures
            *head == self.head(),
    {
        match self {
            MetaItem::Path(head) => head,
            MetaItem::List(head, _) => head,
            MetaItem::NameValue(head) => head,
        }
    }
}

/// The directive that governs a meta item once every `cfg_attr` wrapper
/// around it is taken off. A wrapper is taken off only when it is a list of
/// exactly two arguments whose second is a meta item; any other `cfg_attr`
/// governs nothing.
pub open spec fn resolved(meta: MetaItem) -> Option<MetaItem>
    decreases meta,
{
    if meta.head().names("cfg_attr"@) {
        match meta {
            MetaItem::List(_, arguments) => {
                if arguments@.len() == 2 {
                    match arguments@[1] {
                        MetaArgument::Item(inner) => resolved(inner),
                        MetaArgument::Lit => None,
                    }
                } else {
                    None
                }
            },
            _ => None,
        }
    } else {
        Some(meta)
    }
}

/// The directive that a head name stands for, if it stands for one.
pub open spec fn pattern_of(head: HeadName) -> Option<DirectivePattern> {
    if head.names("allow"@) {
        Some(DirectivePattern::Allow)
    } else if head.names("warn"@) {
        Some(DirectivePattern::Warn)
    } else if head.names("deny"@) {
        Some(DirectivePattern::Deny)
    } else if head.names_pair("clippy"@, "msrv"@) {
        Some(DirectivePattern::Msrv)
    } else {
        None
    }
}

/// The lint-control directive that an attribute amounts to, if any: its
/// content must have parsed, and what its `cfg_attr` wrappers govern must
/// be one of the directives.
pub open spec fn directive_of(node: Annotation) -> Option<DirectivePattern> {
    match node.meta {
        Some(meta) => match resolved(meta) {
            Some(inner) => pattern_of(inner.head()),
            None => None,
        },
        None => None,
    }
}

/// Takes the `cfg_attr` wrappers off a meta item.
pub fn resolve(meta: &MetaItem) -> (governing: Option<&MetaItem>)
    ensures
        governing is Some == resolved(*meta) is Some,
        governing matches Some(inner) ==> resolved(*meta) == Some(*inner),
    decreases meta,
{
    if meta.path().is_ident("cfg_attr") {
        match meta {
            MetaItem::List(_, arguments) => {
                if arguments.len() == 2 {
                    match &arguments[1] {
                        MetaArgument::Item(inner) => resolve(inner),
                        MetaArgument::Lit => None,
                    }
                } else {
                    None
                }
            },
            _ => None,
        }
    } else {
        Some(meta)
    }
}

/// Reads a head name as a directive.
pub fn classify(head: &HeadName) -> (pattern: Option<DirectivePattern>)
    ensures
        pattern == pattern_of(*head),
{
    if head.is_ident("allow") {
        Some(DirectivePattern::Allow)
    } else if head.is_ident("warn") {
        Some(DirectivePattern::Warn)
    } else if head.is_ident("deny") {
        Some(DirectivePattern::Deny)
    } else if head.is_pair("clippy", "msrv") {
        Some(DirectivePattern::Msrv)
    } else {
        None
    }
}

/// The spans `list` with `span` put in behind the last one that starts no
/// later than it does.
pub open spec fn placed(list: Seq<MatchSpan>, span: MatchSpan) -> Seq<MatchSpan>
    decreases list.len(),
{
    if list.len() == 0 || list.last().start.precedes(span.start) {
        list.push(span)
    } else {
        placed(list.drop_last(), span).push(list.last())
    }
}

/// The spans of the attributes among `nodes` that control lints, ordered by
/// where they start; those that start at the same place keep the order in
/// which they were visited.
pub open spec fn located(nodes: Seq<Annotation>) -> Seq<MatchSpan>
    decreases nodes.len(),
{
    if nodes.len() == 0 {
        Seq::empty()
    } else if directive_of(nodes.last()) is Some {
        placed(located(nodes.drop_last()), nodes.last().span)
    } else {
        located(nodes.drop_last())
    }
}

/// Whether spans are ordered by where they start.
pub open spec fn in_source_order(list: Seq<MatchSpan>) -> bool {
    forall|i: int, j: int| 0 <= i < j < list.len() ==> list[i].start.precedes(list[j].start)
}

/// The spans of the attributes among `nodes` that control lints, in the
/// order in which the attributes were visited.
pub open spec fn visited(nodes: Seq<Annotation>) -> Seq<MatchSpan>
    decreases nodes.len(),
{
    if nodes.len() == 0 {
        Seq::empty()
    } else if directive_of(nodes.last()) is Some {
        visited(nodes.drop_last()).push(nodes.last().span)
    } else {
        visited(nodes.drop_last())
    }
}

/// Putting a span in adds that span and no other, and keeps the order.
pub proof fn lemma_placed(list: Seq<MatchSpan>, span: MatchSpan)
    ensures
        placed(list, span).len() == list.len() + 1,
        placed(list, span).to_multiset() == list.to_multiset().insert(span),
        in_source_order(list) ==> in_source_order(placed(list, span)),
        forall|i: int|
            0 <= i < list.len() + 1 ==> #[trigger] placed(list, span)[i] == span || (exists|j: int|
                0 <= j < list.len() && list[j] == placed(list, span)[i]),
    decreases list.len(),
{
    broadcast use vstd::seq_lib::group_to_multiset_ensures;

    if list.len() == 0 || list.last().start.precedes(span.start) {
        let after = list.push(span);
        assert forall|i: int| 0 <= i < list.len() + 1 implies #[trigger] after[i] == span || (
        exists|j: int| 0 <= j < list.len() && list[j] == after[i]) by {
            if i < list.len() {
                assert(list[i] == after[i]);
            }
        }
        if in_source_order(list) {
            assert forall|i: int, j: int| 0 <= i < j < after.len() implies after[i].start.precedes(
                after[j].start,
            ) by {
                assert(after[i] == list[i]);
                if j < list.len() {
                    assert(after[j] == list[j]);
                } else if i < list.len() - 1 {
                    assert(list[i].start.precedes(list[list.len() - 1].start));
                }
            }
        }
    } else {
        let front = list.drop_last();
        lemma_placed(front, span);
        let inner = placed(front, span);
        let after = inner.push(list.last());
        assert(list == front.push(list.last()));
        assert(list.to_multiset() == front.to_multiset().insert(list.last()));
        assert(after.to_multiset() == front.to_multiset().insert(span).insert(list.last()));
        assert(after.to_multiset() == list.to_multiset().insert(span));
        assert forall|i: int| 0 <= i < list.len() + 1 implies #[trigger] after[i] == span || (
        exists|j: int| 0 <= j < list.len() && list[j] == after[i]) by {
            if i < inner.len() {
                assert(after[i] == inner[i]);
                if inner[i] != span {
                    let j = choose|j: int| 0 <= j < front.len() && front[j] == inner[i];
                    assert(list[j] == after[i]);
                }
            } else {
                assert(list[list.len() - 1] == after[i]);
            }
        }
        if in_source_order(list) {
            assert(in_source_order(front)) by {
                assert forall|i: int, j: int| 0 <= i < j < front.len() implies front[i].start.precedes(
                    front[j].start,
                ) by {
                    assert(front[i] == list[i] && front[j] == list[j]);
                }
            }
            assert forall|i: int, j: int| 0 <= i < j < after.len() implies after[i].start.precedes(
                after[j].start,
            ) by {
                assert(after[i] == inner[i]);
                if j < inner.len() {
                    assert(after[j] == inner[j]);
                } else {
                    assert(after[j] == list.last());
                    if inner[i] != span {
                        let k = choose|k: int| 0 <= k < front.len() && front[k] == inner[i];
                        assert(front[k] == list[k]);
                        assert(list[k].start.precedes(list[list.len() - 1].start));
                    } else {
                        assert(span.start.precedes(list.last().start));
                    }
                }
            }
        }
    }
}

/// The spans come out ordered by where they start.
pub proof fn lemma_located_in_source_order(nodes: Seq<Annotation>)
    ensures
        in_source_order(located(nodes)),
    decreases nodes.len(),
{
    if nodes.len() > 0 {
        lemma_located_in_source_order(nodes.drop_last());
        if directive_of(nodes.last()) is Some {
            lemma_placed(located(nodes.drop_last()), nodes.last().span);
        }
    }
}

/// The spans that come out are those of the attributes that control
/// lints, each as often as it was visited, and no others.
pub proof fn lemma_located_is_visited_reordered(nodes: Seq<Annotation>)
    ensures
        located(nodes).to_multiset() == visited(nodes).to_multiset(),
        located(nodes).len() == visited(nodes).len(),
    decreases nodes.len(),
{
    broadcast use vstd::seq_lib::group_to_multiset_ensures;

    if nodes.len() > 0 {
        lemma_located_is_visited_reordered(nodes.drop_last());
        if directive_of(nodes.last()) is Some {
            lemma_placed(located(nodes.drop_last()), nodes.last().span);
        }
    }
}

/// Where the attributes are visited in source order, their spans come out
/// in the order of the visit.
pub proof fn lemma_located_keeps_visiting_order(nodes: Seq<Annotation>)
    requires
        in_source_order(visited(nodes)),
    ensures
        located(nodes) == visited(nodes),
    decreases nodes.len(),
{
    if nodes.len() > 0 {
        let front = nodes.drop_last();
        let seen = visited(nodes);
        if directive_of(nodes.last()) is Some {
            assert(in_source_order(visited(front))) by {
                assert forall|i: int, j: int| 0 <= i < j < visited(front).len() implies visited(
                    front,
                )[i].start.precedes(visited(front)[j].start) by {
                    assert(seen[i] == visited(front)[i] && seen[j] == visited(front)[j]);
                }
            }
            lemma_located_keeps_visiting_order(front);
            if visited(front).len() > 0 {
                let last = visited(front).len() - 1;
                assert(seen[last] == visited(front).last());
                assert(seen[last].start.precedes(seen[last + 1].start));
            }
        } else {
            lemma_located_keeps_visiting_order(front);
        }
    }
}

/// Every attribute that controls lints has its whole span among those that
/// come out.
pub proof fn lemma_located_holds_each_match(nodes: Seq<Annotation>, index: int)
    requires
        0 <= index < nodes.len(),
        directive_of(nodes[index]) is Some,
    ensures
        located(nodes).contains(nodes[index].span),
    decreases nodes.len(),
{
    let front = nodes.drop_last();
    if directive_of(nodes.last()) is Some {
        lemma_placed(located(front), nodes.last().span);
        let after = placed(located(front), nodes.last().span);
        broadcast use vstd::seq_lib::group_to_multiset_ensures;

        if index < nodes.len() - 1 {
            lemma_located_holds_each_match(front, index);
            assert(front[index] == nodes[index]);
            assert(located(front).to_multiset().count(nodes[index].span) > 0);
        }
        assert(after.to_multiset().count(nodes[index].span) > 0);
    } else {
        lemma_located_holds_each_match(front, index);
        assert(front[index] == nodes[index]);
    }
}

/// Collects the spans of the attributes that control lints.
pub struct Cleaner {
    pub sections: Vec<MatchSpan>,
}

impl Cleaner {
    /// Looks at one attribute and records its span if it controls lints. The
    /// span recorded is that of the whole attribute, `cfg_attr` wrappers
    /// included.
    pub fn visit_attribute(&mut self, node: &Annotation)
        ensures
            final(self).sections@ == if directive_of(*node) is Some {
                placed(old(self).sections@, node.span)
            } else {
                old(self).sections@
            },
    {
        let matched = match &node.meta {
            Some(meta) => match resolve(meta) {
                Some(inner) => classify(inner.path()).is_some(),
                None => false,
            },
            None => false,
        };
        if matched {
            let mut slot = self.sections.len();
            proof {
                assert(self.sections@.take(slot as int) == self.sections@);
                assert(self.sections@.skip(slot as int) == Seq::<MatchSpan>::empty());
                assert(placed(self.sections@, node.span) + Seq::<MatchSpan>::empty() == placed(
                    self.sections@,
                    node.span,
                ));
            }
            while slot > 0 && !self.sections[slot - 1].start.is_at_or_before(&node.span.start)
                invariant
                    slot <= self.sections.len(),
                    self.sections == old(self).sections,
                    placed(self.sections@, node.span) == placed(
                        self.sections@.take(slot as int),
                        node.span,
                    ) + self.sections@.skip(slot as int),
                decreases slot,
            {
                proof {
                    let front = self.sections@.take(slot as int);
                    assert(front.drop_last() == self.sections@.take(slot - 1));
                    assert(placed(front.drop_last(), node.span).push(front.last())
                        + self.sections@.skip(slot as int) == placed(
                        front.drop_last(),
                        node.span,
                    ) + self.sections@.skip(slot - 1));
                }
                slot = slot - 1;
            }
            proof {
                let front = self.sections@.take(slot as int);
                assert(placed(front, node.span) == front.push(node.span));
                assert(front.push(node.span) + self.sections@.skip(slot as int)
                    == self.sections@.insert(slot as int, node.span));
            }
            self.sections.insert(slot, node.span);
        }
    }
}

/// The spans of the attributes among `nodes` that control lints, in source
/// order.
pub fn get_bad_sections(nodes: &Vec<Annotation>) -> (sections: Vec<MatchSpan>)
    ensures
        sections@ == located(nodes@),
        in_source_order(sections@),
{
    let mut visitor = Cleaner { sections: Vec::new() };
    let mut index: usize = 0;
    while index < nodes.len()
        invariant
            index <= nodes.len(),
            visitor.sections@ == located(nodes@.take(index as int)),
        decreases nodes.len() - index,
    {
        proof {
            let upto = nodes@.take(index + 1);
            assert(upto.drop_last() == nodes@.take(index as int));
            assert(upto.last() == nodes@[index as int]);
        }
        visitor.visit_attribute(&nodes[index]);
        index = index + 1;
    }
    proof {
        assert(nodes@.take(index as int) == nodes@);
        lemma_located_in_source_order(nodes@);
    }
    visitor.sections
}

} // verus!
