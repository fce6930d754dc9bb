//! Where the tags of each scope and symbol stand among the tags of a tree,
//! and what the enclosing scope of a tag is made of.

use vstd::prelude::*;
use crate::descriptor::{kind_of, names_of, scope_path};
use crate::protocol::TagView;
use crate::scope::ScopeView;
use crate::tags::{forest_tags, leaf_tag, leaf_tags, own_tags, scope_tags, self_tag};

verus! {

/// The tags of two runs of sibling scopes, one after the other, are the tags
/// of the first run followed by the tags of the second.
pub proof fn lemma_forest_tags_concat(
    first: Seq<ScopeView>,
    second: Seq<ScopeView>,
    parents: Seq<Seq<char>>,
    path: Seq<char>,
    language: Seq<char>,
)
    ensures
        forest_tags(first + second, parents, path, language) == forest_tags(
            first,
            parents,
            path,
            language,
        ) + forest_tags(second, parents, path, language),
    decreases second.len(),
{
    if second.len() == 0 {
        assert(first + second == first);
    } else {
        lemma_forest_tags_concat(first, second.drop_last(), parents, path, language);
        assert((first + second).drop_last() == first + second.drop_last());
        assert((first + second).last() == second.last());
    }
}

/// The tags of a single sibling are the tags of that scope.
pub proof fn lemma_forest_tags_single(
    scope: ScopeView,
    parents: Seq<Seq<char>>,
    path: Seq<char>,
    language: Seq<char>,
)
    ensures
        forest_tags(seq![scope], parents, path, language) == scope_tags(
            scope,
            parents,
            path,
            language,
        ),
{
    assert(seq![scope].drop_last() == Seq::<ScopeView>::empty());
    assert(forest_tags(seq![scope].drop_last(), parents, path, language) == Seq::<
        TagView,
    >::empty());
}

/// Where the tags of the child with index `i` begin among the tags of
/// `scope`: after the scope's own tag and the tags of the children before it.
/// With `i` the number of children, where the tags of the scope's symbols
/// begin.
pub open spec fn child_start(
    scope: ScopeView,
    parents: Seq<Seq<char>>,
    path: Seq<char>,
    language: Seq<char>,
    i: int,
) -> int {
    own_tags(scope, parents, path, language).len() + forest_tags(
        scope.children.take(i),
        parents + names_of(scope.descriptors),
        path,
        language,
    ).len() as int
}

/// A scope with descriptors emits its own tag first; one without emits none.
pub proof fn lemma_own_tag_first(
    scope: ScopeView,
    parents: Seq<Seq<char>>,
    path: Seq<char>,
    language: Seq<char>,
)
    ensures
        scope.descriptors.len() > 0 ==> {
            &&& scope_tags(scope, parents, path, language).len() > 0
            &&& scope_tags(scope, parents, path, language)[0] == self_tag(
                scope,
                parents,
                path,
                language,
            )
            &&& child_start(scope, parents, path, language, 0) == 1
        },
        scope.descriptors.len() == 0 ==> child_start(scope, parents, path, language, 0) == 0,
{
    assert(scope.children.take(0) == Seq::<ScopeView>::empty());
}

/// The tags of each child, with everything below it, stand together, after
/// those of the children before it and before those of the children after
/// it, and all of them before the tags of the scope's symbols.
pub proof fn lemma_child_tags_position(
    scope: ScopeView,
    parents: Seq<Seq<char>>,
    path: Seq<char>,
    language: Seq<char>,
    i: int,
)
    requires
        0 <= i < scope.children.len(),
    ensures
        0 <= child_start(scope, parents, path, language, i) <= child_start(
            scope,
            parents,
            path,
            language,
            i + 1,
        ) <= child_start(scope, parents, path, language, scope.children.len() as int),
        child_start(scope, parents, path, language, scope.children.len() as int)
            + scope.globals.len() == scope_tags(scope, parents, path, language).len(),
        scope_tags(scope, parents, path, language).subrange(
            child_start(scope, parents, path, language, i),
            child_start(scope, parents, path, language, i + 1),
        ) == scope_tags(scope.children[i], parents + names_of(scope.descriptors), path, language),
{
    let enclosing = parents + names_of(scope.descriptors);
    let kids = scope.children;
    let own = own_tags(scope, parents, path, language);
    let child = scope_tags(kids[i], enclosing, path, language);
    let before = forest_tags(kids.take(i), enclosing, path, language);
    let after = forest_tags(kids.skip(i + 1), enclosing, path, language);
    let leaves = leaf_tags(scope.globals, enclosing, path, language);
    assert(kids.take(i + 1) == kids.take(i) + seq![kids[i]]);
    assert(kids == kids.take(i + 1) + kids.skip(i + 1));
    assert(kids.take(kids.len() as int) == kids);
    lemma_forest_tags_concat(kids.take(i), seq![kids[i]], enclosing, path, language);
    lemma_forest_tags_single(kids[i], enclosing, path, language);
    lemma_forest_tags_concat(kids.take(i + 1), kids.skip(i + 1), enclosing, path, language);
    assert(scope_tags(scope, parents, path, language) == own + (before + child + after) + leaves);
    assert((own + (before + child + after) + leaves).subrange(
        own.len() + before.len() as int,
        own.len() + before.len() + child.len() as int,
    ) == child);
}

/// The tags of a scope's symbols come last, in the order of the symbols.
pub proof fn lemma_leaf_tag_position(
    scope: ScopeView,
    parents: Seq<Seq<char>>,
    path: Seq<char>,
    language: Seq<char>,
    j: int,
)
    requires
        0 <= j < scope.globals.len(),
    ensures
        child_start(scope, parents, path, language, scope.children.len() as int)
            + scope.globals.len() == scope_tags(scope, parents, path, language).len(),
        scope_tags(scope, parents, path, language)[child_start(
            scope,
            parents,
            path,
            language,
            scope.children.len() as int,
        ) + j] == leaf_tag(scope.globals[j], parents + names_of(scope.descriptors), path, language),
{
    assert(scope.children.take(scope.children.len() as int) == scope.children);
}

/// Whether `route` leads from `root` down to a scope of the tree: step by
/// step it gives the index of the child to descend into. The empty route
/// leads to `root` itself.
pub open spec fn leads_to_scope(root: ScopeView, route: Seq<int>) -> bool
    decreases route.len(),
{
    route.len() > 0 ==> {
        &&& 0 <= route[0] < root.children.len()
        &&& leads_to_scope(root.children[route[0]], route.drop_first())
    }
}

/// The scope that `route` leads to.
pub open spec fn scope_at(root: ScopeView, route: Seq<int>) -> ScopeView
    decreases route.len(),
{
    if route.len() == 0 {
        root
    } else {
        scope_at(root.children[route[0]], route.drop_first())
    }
}

/// The names of the ancestors of the scope that `route` leads to, outermost
/// first: those of `root` and of every scope on the way, without the scope
/// itself.
pub open spec fn ancestor_names(root: ScopeView, route: Seq<int>) -> Seq<Seq<char>>
    decreases route.len(),
{
    if route.len() == 0 {
        Seq::empty()
    } else {
        names_of(root.descriptors) + ancestor_names(
            root.children[route[0]],
            route.drop_first(),
        )
    }
}

/// Where the tags of the scope that `route` leads to begin among the tags of
/// `root`.
pub open spec fn subtree_start(
    root: ScopeView,
    route: Seq<int>,
    parents: Seq<Seq<char>>,
    path: Seq<char>,
    language: Seq<char>,
) -> int
    decreases route.len(),
{
    if route.len() == 0 {
        0
    } else {
        child_start(root, parents, path, language, route[0]) + subtree_start(
            root.children[route[0]],
            route.drop_first(),
            parents + names_of(root.descriptors),
            path,
            language,
        )
    }
}

/// The tags of every scope of a tree stand together among the tags of the
/// tree, and are those that the scope emits below the names of its
/// ancestors.
pub proof fn lemma_subtree_position(
    root: ScopeView,
    route: Seq<int>,
    parents: Seq<Seq<char>>,
    path: Seq<char>,
    language: Seq<char>,
)
    requires
        leads_to_scope(root, route),
    ensures
        0 <= subtree_start(root, route, parents, path, language),
        subtree_start(root, route, parents, path, language) + scope_tags(
            scope_at(root, route),
            parents + ancestor_names(root, route),
            path,
            language,
        ).len() <= scope_tags(root, parents, path, language).len(),
        scope_tags(root, parents, path, language).subrange(
            subtree_start(root, route, parents, path, language),
            subtree_start(root, route, parents, path, language) + scope_tags(
                scope_at(root, route),
                parents + ancestor_names(root, route),
                path,
                language,
            ).len(),
        ) == scope_tags(
            scope_at(root, route),
            parents + ancestor_names(root, route),
            path,
            language,
        ),
    decreases route.len(),
{
    let all = scope_tags(root, parents, path, language);
    if route.len() == 0 {
        assert(parents + ancestor_names(root, route) == parents);
        assert(all.subrange(0, all.len() as int) == all);
    } else {
        let i = route[0];
        let rest = route.drop_first();
        let child = root.children[i];
        let enclosing = parents + names_of(root.descriptors);
        let offset = child_start(root, parents, path, language, i);
        let inner = subtree_start(child, rest, enclosing, path, language);
        let child_all = scope_tags(child, enclosing, path, language);
        let target = scope_tags(
            scope_at(child, rest),
            enclosing + ancestor_names(child, rest),
            path,
            language,
        );
        lemma_child_tags_position(root, parents, path, language, i);
        lemma_subtree_position(child, rest, enclosing, path, language);
        assert(parents + ancestor_names(root, route) == enclosing + ancestor_names(child, rest));
        assert(child_all == all.subrange(offset, offset + child_all.len()));
        assert(child_all.subrange(inner, inner + target.len()) == all.subrange(
            offset + inner,
            offset + inner + target.len(),
        ));
    }
}

/// The tag that a scope with descriptors emits for itself stands where the
/// scope's tags begin. Its enclosing scope is made of the names of the
/// scope's ancestors, outermost first and without the scope's own names, and
/// is absent exactly where the ancestors have no name at all. Its line is
/// one more than the first value of the scope's range.
pub proof fn lemma_self_tag_of_scope(
    root: ScopeView,
    route: Seq<int>,
    path: Seq<char>,
    language: Seq<char>,
)
    requires
        leads_to_scope(root, route),
        scope_at(root, route).descriptors.len() > 0,
        scope_at(root, route).start_line >= 0,
    ensures
        0 <= subtree_start(root, route, Seq::empty(), path, language) < scope_tags(
            root,
            Seq::empty(),
            path,
            language,
        ).len(),
        scope_tags(root, Seq::empty(), path, language)[subtree_start(
            root,
            route,
            Seq::empty(),
            path,
            language,
        )] == self_tag(scope_at(root, route), ancestor_names(root, route), path, language),
        self_tag(scope_at(root, route), ancestor_names(root, route), path, language).scope
            == scope_path(ancestor_names(root, route)),
        self_tag(scope_at(root, route), ancestor_names(root, route), path, language).scope is None
            <==> ancestor_names(root, route).len() == 0,
        self_tag(scope_at(root, route), ancestor_names(root, route), path, language).line
            == scope_at(root, route).start_line + 1,
{
    let none = Seq::<Seq<char>>::empty();
    let names = ancestor_names(root, route);
    let all = scope_tags(root, none, path, language);
    let start = subtree_start(root, route, none, path, language);
    let sub = scope_tags(scope_at(root, route), names, path, language);
    lemma_subtree_position(root, route, none, path, language);
    assert(none + names == names);
    lemma_own_tag_first(scope_at(root, route), names, path, language);
    assert(all.subrange(start, start + sub.len())[0] == sub[0]);
}

/// Where the tag of the symbol with index `j` of the scope that `route`
/// leads to stands among the tags of `root`.
pub open spec fn leaf_position(
    root: ScopeView,
    route: Seq<int>,
    j: int,
    parents: Seq<Seq<char>>,
    path: Seq<char>,
    language: Seq<char>,
) -> int {
    subtree_start(root, route, parents, path, language) + child_start(
        scope_at(root, route),
        parents + ancestor_names(root, route),
        path,
        language,
        scope_at(root, route).children.len() as int,
    ) + j
}

/// The tag of a symbol stands after all tags of the children of its scope.
/// It is named by the symbol's last descriptor; its enclosing scope is made
/// of the names of the scope's ancestors, of the scope itself and of the
/// symbol's other descriptors; its line is one more than the first value of
/// the symbol's range.
pub proof fn lemma_leaf_tag_of_symbol(
    root: ScopeView,
    route: Seq<int>,
    j: int,
    path: Seq<char>,
    language: Seq<char>,
)
    requires
        leads_to_scope(root, route),
        0 <= j < scope_at(root, route).globals.len(),
        scope_at(root, route).globals[j].wf(),
    ensures
        0 <= leaf_position(root, route, j, Seq::empty(), path, language) < scope_tags(
            root,
            Seq::empty(),
            path,
            language,
        ).len(),
        scope_tags(root, Seq::empty(), path, language)[leaf_position(
            root,
            route,
            j,
            Seq::empty(),
            path,
            language,
        )] == leaf_tag(
            scope_at(root, route).globals[j],
            ancestor_names(root, route) + names_of(scope_at(root, route).descriptors),
            path,
            language,
        ),
        leaf_tag(
            scope_at(root, route).globals[j],
            ancestor_names(root, route) + names_of(scope_at(root, route).descriptors),
            path,
            language,
        ) == (TagView {
            name: scope_at(root, route).globals[j].descriptors.last().name,
            path,
            language,
            line: (scope_at(root, route).globals[j].start_line + 1) as nat,
            kind: kind_of(scope_at(root, route).globals[j].descriptors),
            scope: scope_path(
                ancestor_names(root, route) + names_of(scope_at(root, route).descriptors)
                    + names_of(scope_at(root, route).globals[j].descriptors.drop_last()),
            ),
        }),
        leaf_tag(
            scope_at(root, route).globals[j],
            ancestor_names(root, route) + names_of(scope_at(root, route).descriptors),
            path,
            language,
        ).line == scope_at(root, route).globals[j].start_line + 1,
{
    let none = Seq::<Seq<char>>::empty();
    let names = ancestor_names(root, route);
    let scope = scope_at(root, route);
    let all = scope_tags(root, none, path, language);
    let start = subtree_start(root, route, none, path, language);
    let sub = scope_tags(scope, names, path, language);
    let inner = child_start(scope, names, path, language, scope.children.len() as int) + j;
    lemma_subtree_position(root, route, none, path, language);
    assert(none + names == names);
    lemma_leaf_tag_position(scope, names, path, language, j);
    assert(all.subrange(start, start + sub.len())[inner] == sub[inner]);
}

/// Whether position `k` among the tags of `root` is that of the own tag of
/// the scope that `route` leads to.
pub open spec fn is_scope_tag(
    root: ScopeView,
    route: Seq<int>,
    parents: Seq<Seq<char>>,
    path: Seq<char>,
    language: Seq<char>,
    k: int,
) -> bool {
    &&& leads_to_scope(root, route)
    &&& scope_at(root, route).descriptors.len() > 0
    &&& k == subtree_start(root, route, parents, path, language)
}

/// Whether position `k` among the tags of `root` is that of the tag of the
/// symbol with index `j` of the scope that `route` leads to.
pub open spec fn is_leaf_tag(
    root: ScopeView,
    route: Seq<int>,
    j: int,
    parents: Seq<Seq<char>>,
    path: Seq<char>,
    language: Seq<char>,
    k: int,
) -> bool {
    &&& leads_to_scope(root, route)
    &&& 0 <= j < scope_at(root, route).globals.len()
    &&& k == leaf_position(root, route, j, parents, path, language)
}

/// A position among the tags of a scope's children lies among the tags of
/// one child.
proof fn lemma_child_holding(
    scope: ScopeView,
    parents: Seq<Seq<char>>,
    path: Seq<char>,
    language: Seq<char>,
    k: int,
    upper: int,
) -> (i: int)
    requires
        0 < upper <= scope.children.len(),
        child_start(scope, parents, path, language, 0) <= k < child_start(
            scope,
            parents,
            path,
            language,
            upper,
        ),
    ensures
        0 <= i < scope.children.len(),
        child_start(scope, parents, path, language, i) <= k < child_start(
            scope,
            parents,
            path,
            language,
            i + 1,
        ),
    decreases upper,
{
    if k >= child_start(scope, parents, path, language, upper - 1) {
        upper - 1
    } else {
        lemma_child_holding(scope, parents, path, language, k, upper - 1)
    }
}

/// Every tag of a tree is the own tag of one of its scopes or the tag of one
/// of their symbols: the result names the scope by its route, and the
/// symbol, if it is one, by its index.
pub proof fn lemma_tag_origin(
    root: ScopeView,
    parents: Seq<Seq<char>>,
    path: Seq<char>,
    language: Seq<char>,
    k: int,
) -> (origin: (Seq<int>, Option<int>))
    requires
        0 <= k < scope_tags(root, parents, path, language).len(),
    ensures
        match origin.1 {
            None => is_scope_tag(root, origin.0, parents, path, language, k),
            Some(j) => is_leaf_tag(root, origin.0, j, parents, path, language, k),
        },
    decreases root,
{
    let enclosing = parents + names_of(root.descriptors);
    let own = own_tags(root, parents, path, language);
    let count = root.children.len() as int;
    let leaves_start = child_start(root, parents, path, language, count);
    let here = Seq::<int>::empty();
    assert(root.children.take(count) == root.children);
    assert(root.children.take(0) == Seq::<ScopeView>::empty());
    assert(parents + ancestor_names(root, here) == parents);
    if k < own.len() {
        (here, None)
    } else if k >= leaves_start {
        (here, Some(k - leaves_start))
    } else {
        let i = lemma_child_holding(root, parents, path, language, k, count);
        let child = root.children[i];
        lemma_child_tags_position(root, parents, path, language, i);
        let inner = lemma_tag_origin(
            child,
            enclosing,
            path,
            language,
            k - child_start(root, parents, path, language, i),
        );
        let route = seq![i] + inner.0;
        assert(route.drop_first() == inner.0);
        assert(parents + ancestor_names(root, route) == enclosing + ancestor_names(
            child,
            inner.0,
        ));
        (route, inner.1)
    }
}

/// In a well-formed tree every scope is well formed.
pub proof fn lemma_wf_below(root: ScopeView, route: Seq<int>)
    requires
        root.wf(),
        leads_to_scope(root, route),
    ensures
        scope_at(root, route).wf(),
    decreases route.len(),
{
    if route.len() > 0 {
        lemma_wf_below(root.children[route[0]], route.drop_first());
    }
}

/// The line of every tag of a well-formed tree is one more than the first
/// value of the range of the scope or symbol that the tag is emitted for,
/// and so at least 1. The result names that scope by its route, and the
/// symbol, if it is one, by its index.
pub proof fn lemma_line_of_every_tag(
    root: ScopeView,
    path: Seq<char>,
    language: Seq<char>,
    k: int,
) -> (origin: (Seq<int>, Option<int>))
    requires
        root.wf(),
        0 <= k < scope_tags(root, Seq::empty(), path, language).len(),
    ensures
        leads_to_scope(root, origin.0),
        match origin.1 {
            None => scope_tags(root, Seq::empty(), path, language)[k].line == scope_at(
                root,
                origin.0,
            ).start_line + 1,
            Some(j) => 0 <= j < scope_at(root, origin.0).globals.len() && scope_tags(
                root,
                Seq::empty(),
                path,
                language,
            )[k].line == scope_at(root, origin.0).globals[j].start_line + 1,
        },
        scope_tags(root, Seq::empty(), path, language)[k].line >= 1,
{
    let origin = lemma_tag_origin(root, Seq::empty(), path, language, k);
    lemma_wf_below(root, origin.0);
    match origin.1 {
        None => {
            lemma_self_tag_of_scope(root, origin.0, path, language);
        },
        Some(j) => {
            lemma_leaf_tag_of_symbol(root, origin.0, j, path, language);
        },
    }
    origin
}

/// The ancestors of a scope have no name at all exactly where none of them
/// has a descriptor.
pub proof fn lemma_ancestors_unnamed(root: ScopeView, route: Seq<int>)
    ensures
        ancestor_names(root, route).len() == 0 <==> forall|k: int|
            0 <= k < route.len() ==> (#[trigger] scope_at(root, route.take(k))).descriptors.len()
                == 0,
    decreases route.len(),
{
    if route.len() > 0 {
        let child = root.children[route[0]];
        let rest = route.drop_first();
        lemma_ancestors_unnamed(child, rest);
        assert(route.take(0) == Seq::<int>::empty());
        assert(scope_at(root, route.take(0)) == root);
        assert forall|k: int| 0 <= k < rest.len() implies #[trigger] scope_at(child, rest.take(k))
            == scope_at(root, route.take(k + 1)) by {
            assert(route.take(k + 1).drop_first() == rest.take(k));
        }
        if ancestor_names(root, route).len() == 0 {
            assert forall|k: int| 0 <= k < route.len() implies (#[trigger] scope_at(
                root,
                route.take(k),
            )).descriptors.len() == 0 by {
                if k > 0 {
                    assert(scope_at(child, rest.take(k - 1)) == scope_at(root, route.take(k)));
                }
            }
        }
        if forall|k: int|
            0 <= k < route.len() ==> (#[trigger] scope_at(root, route.take(k))).descriptors.len()
                == 0 {
            assert forall|k: int| 0 <= k < rest.len() implies (#[trigger] scope_at(
                child,
                rest.take(k),
            )).descriptors.len() == 0 by {
                assert(scope_at(root, route.take(k + 1)).descriptors.len() == 0);
            }
        }
    }
}

/// In a tree whose root has no descriptors, the tag of a scope has no
/// enclosing scope exactly where the scope is a child of the root.
///
/// This is stated of every scope below the root but those on which it does
/// not hold: a child of a root that has descriptors, and a scope further
/// down none of whose ancestors has a descriptor.
pub proof fn lemma_scope_absent_iff_child_of_root(
    root: ScopeView,
    route: Seq<int>,
    path: Seq<char>,
    language: Seq<char>,
)
    requires
        leads_to_scope(root, route),
        route.len() >= 1,
        route.len() == 1 ==> root.descriptors.len() == 0,
        route.len() > 1 ==> exists|k: int|
            0 <= k < route.len() && (#[trigger] scope_at(root, route.take(k))).descriptors.len()
                > 0,
    ensures
        self_tag(scope_at(root, route), ancestor_names(root, route), path, language).scope is None
            <==> route.len() == 1,
{
    lemma_ancestors_unnamed(root, route);
    if route.len() == 1 {
        assert forall|k: int| 0 <= k < route.len() implies (#[trigger] scope_at(
            root,
            route.take(k),
        )).descriptors.len() == 0 by {
            assert(route.take(0) == Seq::<int>::empty());
        }
    }
}

} // verus!
