//! The walk over a scope tree that emits its tags: each scope's own tag,
//! then all of its children's, then its symbols'.

use vstd::prelude::*;
use crate::descriptor::{descriptors_to_kind, dotted, join_dotted, kind_of, names_of, push_names, scope_path};
use crate::protocol::{reply_bytes, Reply, ReplyView, Tag, TagView};
use crate::scope::{LeafSymbolView, Scope, ScopeView};

verus! {

/// The tag of a scope itself, below the ancestors named by `parents`.
pub open spec fn self_tag(
    scope: ScopeView,
    parents: Seq<Seq<char>>,
    path: Seq<char>,
    language: Seq<char>,
) -> TagView {
    TagView {
        name: dotted(names_of(scope.descriptors)),
        path,
        language,
        line: (scope.start_line + 1) as nat,
        kind: kind_of(scope.descriptors),
        scope: scope_path(parents),
    }
}

/// The tag of a symbol declared in the scope whose qualified name is
/// `enclosing`.
pub open spec fn leaf_tag(
    leaf: LeafSymbolView,
    enclosing: Seq<Seq<char>>,
    path: Seq<char>,
    language: Seq<char>,
) -> TagView {
    TagView {
        name: leaf.descriptors.last().name,
        path,
        language,
        line: (leaf.start_line + 1) as nat,
        kind: kind_of(leaf.descriptors),
        scope: scope_path(enclosing + names_of(leaf.descriptors.drop_last())),
    }
}

/// The tags of the symbols of one scope, in their order.
pub open spec fn leaf_tags(
    leaves: Seq<LeafSymbolView>,
    enclosing: Seq<Seq<char>>,
    path: Seq<char>,
    language: Seq<char>,
) -> Seq<TagView> {
    leaves.map_values(|leaf: LeafSymbolView| leaf_tag(leaf, enclosing, path, language))
}

/// The tag of the scope itself where it has descriptors, none where it has
/// not.
pub open spec fn own_tags(
    scope: ScopeView,
    parents: Seq<Seq<char>>,
    path: Seq<char>,
    language: Seq<char>,
) -> Seq<TagView> {
    if scope.descriptors.len() > 0 {
        seq![self_tag(scope, parents, path, language)]
    } else {
        Seq::empty()
    }
}

/// All tags of a scope, in the order of emission: its own tag, then the tags
/// of each child with everything below that child, then the tags of its
/// symbols.
pub open spec fn scope_tags(
    scope: ScopeView,
    parents: Seq<Seq<char>>,
    path: Seq<char>,
    language: Seq<char>,
) -> Seq<TagView>
    decreases scope,
{
    let enclosing = parents + names_of(scope.descriptors);
    own_tags(scope, parents, path, language) + forest_tags(
        scope.children,
        enclosing,
        path,
        language,
    ) + leaf_tags(scope.globals, enclosing, path, language)
}

/// All tags of a sequence of sibling scopes: those of each scope with
/// everything below it, one scope after the other.
pub open spec fn forest_tags(
    scopes: Seq<ScopeView>,
    parents: Seq<Seq<char>>,
    path: Seq<char>,
    language: Seq<char>,
) -> Seq<TagView>
    decreases scopes,
{
    if scopes.len() == 0 {
        Seq::empty()
    } else {
        forest_tags(scopes.drop_last(), parents, path, language) + scope_tags(
            scopes.last(),
            parents,
            path,
            language,
        )
    }
}

/// The bytes of a sequence of tags: one line for each, in order.
pub open spec fn tags_bytes(tags: Seq<TagView>) -> Seq<u8>
    decreases tags.len(),
{
    if tags.len() == 0 {
        Seq::empty()
    } else {
        tags_bytes(tags.drop_last()) + reply_bytes(ReplyView::Tag(tags.last()))
    }
}

/// The bytes of two runs of tags, one after the other, are the bytes of the
/// first run followed by the bytes of the second.
pub proof fn lemma_tags_bytes_concat(first: Seq<TagView>, second: Seq<TagView>)
    ensures
        tags_bytes(first + second) == tags_bytes(first) + tags_bytes(second),
    decreases second.len(),
{
    if second.len() == 0 {
        assert(first + second == first);
    } else {
        lemma_tags_bytes_concat(first, second.drop_last());
        assert((first + second).drop_last() == first + second.drop_last());
        assert((first + second).last() == second.last());
    }
}

/// The bytes of a single tag are its line.
pub proof fn lemma_tags_bytes_single(tag: TagView)
    ensures
        tags_bytes(seq![tag]) == reply_bytes(ReplyView::Tag(tag)),
{
    assert(seq![tag].drop_last() == Seq::<TagView>::empty());
    assert(tags_bytes(seq![tag].drop_last()) == Seq::<u8>::empty());
}

/// A copy of a list of names.
fn clone_names(names: &Vec<String>) -> (copy: Vec<String>)
    ensures
        copy.deep_view() == names.deep_view(),
{
    let mut copy: Vec<String> = Vec::new();
    let mut i: usize = 0;
    while i < names.len()
        invariant
            i <= names.len(),
            copy.deep_view() == names.deep_view().take(i as int),
        decreases names.len() - i,
    {
        let ghost before = copy.deep_view();
        copy.push(names[i].clone());
        proof {
            let all = names.deep_view();
            assert(all.take(i + 1) == all.take(i as int).push(all[i as int]));
            assert(copy.deep_view() == before.push(names[i as int]@));
        }
        i += 1;
    }
    proof {
        assert(names.deep_view().take(names.len() as int) == names.deep_view());
    }
    copy
}

/// Emits the tags of `scope` and of everything below it, one line each.
///
/// `parent_scopes` names the ancestors of `scope`, outermost first. The scope
/// itself comes first, where it has descriptors; then each child with its
/// whole subtree, in order; then the scope's own symbols, in order. `path`
/// and `language` go onto every tag as they are.
pub fn emit_tags_for_scope(
    buf_writer: &mut Vec<u8>,
    path: &str,
    parent_scopes: Vec<String>,
    scope: &Scope,
    language: &str,
)
    requires
        scope@.wf(),
    ensures
        final(buf_writer)@ == old(buf_writer)@ + tags_bytes(
            scope_tags(scope@, parent_scopes.deep_view(), path@, language@),
        ),
    decreases scope,
{
    let ghost parents = parent_scopes.deep_view();
    let ghost enclosing = parents + names_of(scope@.descriptors);
    let ghost own = own_tags(scope@, parents, path@, language@);
    proof {
        scope.lemma_view();
    }

    let mut curr_scopes = clone_names(&parent_scopes);
    push_names(&mut curr_scopes, scope.descriptors.as_slice(), scope.descriptors.len());
    proof {
        let ds = scope.descriptors.deep_view();
        assert(ds.take(ds.len() as int) == ds);
    }

    if scope.descriptors.len() > 0 {
        if parent_scopes.len() > 0 {
            let joined = join_dotted(&parent_scopes);
            Reply::write_tag(buf_writer, scope, path, language, Some(joined.as_str()));
        } else {
            Reply::write_tag(buf_writer, scope, path, language, None);
        }
        proof {
            lemma_tags_bytes_single(self_tag(scope@, parents, path@, language@));
        }
    }

    let mut i: usize = 0;
    while i < scope.children.len()
        invariant
            i <= scope.children@.len(),
            scope@.wf(),
            scope@.children.len() == scope.children@.len(),
            forall|k: int|
                0 <= k < scope.children@.len() ==> #[trigger] scope@.children[k]
                    == scope.children@[k]@,
            curr_scopes.deep_view() == enclosing,
            buf_writer@ == old(buf_writer)@ + tags_bytes(
                own + forest_tags(scope@.children.take(i as int), enclosing, path@, language@),
            ),
        decreases scope.children@.len() - i,
    {
        let ghost done = own + forest_tags(
            scope@.children.take(i as int),
            enclosing,
            path@,
            language@,
        );
        let ghost next = scope_tags(scope@.children[i as int], enclosing, path@, language@);
        emit_tags_for_scope(
            buf_writer,
            path,
            clone_names(&curr_scopes),
            &scope.children[i],
            language,
        );
        proof {
            let kids = scope@.children;
            assert(kids.take(i + 1).drop_last() == kids.take(i as int));
            assert(kids.take(i + 1).last() == kids[i as int]);
            assert(own + forest_tags(kids.take(i + 1), enclosing, path@, language@) == done
                + next);
            lemma_tags_bytes_concat(done, next);
        }
        i += 1;
    }
    proof {
        assert(scope@.children.take(scope@.children.len() as int) == scope@.children);
    }

    let ghost above = own + forest_tags(scope@.children, enclosing, path@, language@);
    let mut j: usize = 0;
    while j < scope.globals.len()
        invariant
            j <= scope.globals@.len(),
            scope@.wf(),
            scope@.globals == scope.globals.deep_view(),
            curr_scopes.deep_view() == enclosing,
            buf_writer@ == old(buf_writer)@ + tags_bytes(
                above + leaf_tags(scope@.globals.take(j as int), enclosing, path@, language@),
            ),
        decreases scope.globals@.len() - j,
    {
        let global = &scope.globals[j];
        let ghost leaf = scope@.globals[j as int];
        assert(leaf == global@);
        assert(leaf.wf());
        let ghost done = above + leaf_tags(
            scope@.globals.take(j as int),
            enclosing,
            path@,
            language@,
        );
        let count: usize = global.descriptors.len() - 1;
        let mut scope_name = clone_names(&curr_scopes);
        push_names(&mut scope_name, global.descriptors.as_slice(), count);
        let name = global.descriptors[count].name.clone();
        let line: usize = global.range[0] as usize + 1;
        let kind = descriptors_to_kind(global.descriptors.as_slice());
        proof {
            let ds = global.descriptors.deep_view();
            assert(ds.take(count as int) == ds.drop_last());
            assert(ds.last().name == name@);
        }
        if scope_name.len() > 0 {
            let joined = join_dotted(&scope_name);
            Reply::Tag(Tag::new(name, path, language, line, kind, Some(joined.as_str()))).write(
                buf_writer,
            );
        } else {
            Reply::Tag(Tag::new(name, path, language, line, kind, None)).write(buf_writer);
        }
        proof {
            let tag = leaf_tag(leaf, enclosing, path@, language@);
            let leaves = scope@.globals;
            assert(leaf_tags(leaves.take(j + 1), enclosing, path@, language@) == leaf_tags(
                leaves.take(j as int),
                enclosing,
                path@,
                language@,
            ).push(tag));
            assert(above + leaf_tags(leaves.take(j + 1), enclosing, path@, language@) == done
                + seq![tag]);
            lemma_tags_bytes_concat(done, seq![tag]);
            lemma_tags_bytes_single(tag);
        }
        j += 1;
    }
    proof {
        assert(scope@.globals.take(scope@.globals.len() as int) == scope@.globals);
    }
}

} // verus!
