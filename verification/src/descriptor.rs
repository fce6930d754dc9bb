//! Descriptors: the qualifying name segments of a scope or symbol, and the
//! coarse kind that a tag takes from them.

use vstd::prelude::*;

verus! {

/// The category that the parser assigned to one name segment.
#[derive(Clone, Copy, Debug, PartialEq, Eq, Structural)]
pub enum Suffix {
    Namespace,
    Package,
    Method,
    Type,
    /// Every category that has no kind label of its own.
    Other,
}

/// One qualifying name segment with its category.
#[derive(Clone, Debug)]
pub struct Descriptor {
    pub name: String,
    pub suffix: Suffix,
}

/// The mathematical value of a [`Descriptor`].
pub struct DescriptorView {
    pub name: Seq<char>,
    pub suffix: Suffix,
}

impl View for Descriptor {
    type V = DescriptorView;

    open spec fn view(&self) -> DescriptorView {
        DescriptorView { name: self.name@, suffix: self.suffix }
    }
}

impl DeepView for Descriptor {
    type V = DescriptorView;

    open spec fn deep_view(&self) -> DescriptorView {
        self@
    }
}

/// The kind label of one category.
pub open spec fn suffix_kind(suffix: Suffix) -> Seq<char> {
    match suffix {
        Suffix::Namespace => "namespace"@,
        Suffix::Package => "package"@,
        Suffix::Method => "method"@,
        Suffix::Type => "type"@,
        Suffix::Other => "variable"@,
    }
}

/// The category that decides the kind: that of the last descriptor, and
/// `Other` where there is none.
pub open spec fn deciding_suffix(descriptors: Seq<DescriptorView>) -> Suffix {
    if descriptors.len() == 0 {
        Suffix::Other
    } else {
        descriptors.last().suffix
    }
}

/// The kind label of a sequence of descriptors.
pub open spec fn kind_of(descriptors: Seq<DescriptorView>) -> Seq<char> {
    suffix_kind(deciding_suffix(descriptors))
}

/// The kind depends on nothing but the category of the last descriptor:
/// two sequences that end in the same category have the same kind, which is
/// the label of that category.
pub proof fn lemma_kind_by_last_suffix(first: Seq<DescriptorView>, second: Seq<DescriptorView>)
    requires
        first.len() > 0,
        second.len() > 0,
        first.last().suffix == second.last().suffix,
    ensures
        kind_of(first) == kind_of(second),
        kind_of(first) == suffix_kind(first.last().suffix),
{
}

/// Without any descriptor the kind is `variable`.
pub proof fn lemma_kind_of_none()
    ensures
        kind_of(Seq::empty()) == "variable"@,
{
}

/// Classifies a scope or symbol by the category of its last descriptor.
pub fn descriptors_to_kind(descriptors: &[Descriptor]) -> (kind: &'static str)
    ensures
        kind@ == kind_of(descriptors.deep_view()),
{
    let suffix = match descriptors.last() {
        Some(descriptor) => descriptor.suffix,
        None => Suffix::Other,
    };
    match suffix {
        Suffix::Namespace => "namespace",
        Suffix::Package => "package",
        Suffix::Method => "method",
        Suffix::Type => "type",
        Suffix::Other => "variable",
    }
}

/// The names of a sequence of descriptors, in order.
pub open spec fn names_of(descriptors: Seq<DescriptorView>) -> Seq<Seq<char>> {
    descriptors.map_values(|d: DescriptorView| d.name)
}

/// The parts of a qualified name written with a dot between neighbours.
pub open spec fn dotted(parts: Seq<Seq<char>>) -> Seq<char>
    decreases parts.len(),
{
    if parts.len() == 0 {
        Seq::empty()
    } else if parts.len() == 1 {
        parts[0]
    } else {
        dotted(parts.drop_last()) + seq!['.'] + parts.last()
    }
}

/// The enclosing-scope path of a tag: absent where there is no part, else
/// the parts joined by dots.
pub open spec fn scope_path(parts: Seq<Seq<char>>) -> Option<Seq<char>> {
    if parts.len() == 0 {
        None
    } else {
        Some(dotted(parts))
    }
}

/// Appends the names of the first `count` descriptors to `names`.
pub fn push_names(names: &mut Vec<String>, descriptors: &[Descriptor], count: usize)
    requires
        count <= descriptors@.len(),
    ensures
        final(names).deep_view() == old(names).deep_view() + names_of(
            descriptors.deep_view().take(count as int),
        ),
{
    let mut i: usize = 0;
    while i < count
        invariant
            i <= count <= descriptors@.len(),
            names.deep_view() == old(names).deep_view() + names_of(
                descriptors.deep_view().take(i as int),
            ),
        decreases count - i,
    {
        let ghost before = names.deep_view();
        names.push(descriptors[i].name.clone());
        proof {
            let ds = descriptors.deep_view();
            assert(ds.take(i + 1) == ds.take(i as int).push(ds[i as int]));
            assert(names.deep_view() == before.push(descriptors[i as int].name@));
        }
        i += 1;
    }
}

/// Joins the parts of a qualified name with dots.
pub fn join_dotted(parts: &Vec<String>) -> (joined: String)
    ensures
        joined@ == dotted(parts.deep_view()),
{
    let mut joined = String::new();
    let mut i: usize = 0;
    while i < parts.len()
        invariant
            i <= parts.len(),
            joined@ == dotted(parts.deep_view().take(i as int)),
        decreases parts.len() - i,
    {
        if i > 0 {
            joined.append(".");
        }
        joined.append(parts[i].as_str());
        proof {
            reveal_strlit(".");
            let all = parts.deep_view();
            assert(all.take(i + 1).drop_last() == all.take(i as int));
            assert(all.take(i + 1).last() == parts[i as int]@);
        }
        i += 1;
    }
    proof {
        assert(parts.deep_view().take(parts.len() as int) == parts.deep_view());
    }
    joined
}

} // verus!
