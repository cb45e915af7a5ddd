//! Which template answers an identifier: the active locale's, else the first
//! that its fallbacks give, depth first in declared order.

use vstd::prelude::*;
use crate::document::{child, template_at, Document};
use crate::fallback::{direct_fallbacks, entry_index, Graph};
use crate::interpolate::var_views;

verus! {

/// One argument of a formatted lookup.
pub enum MessageLocatorFormatArgument {
    /// A literal that is joined to the identifier with `_`.
    Suffix(String),
    /// The text of a number, joined to the identifier in the same way.
    Scalar(String),
    /// The variables for the template: pairs of a name and a value.
    Variables(Vec<(String, String)>),
}

/// The documents of the loaded locales: pairs of a locale and its document.
pub type Store = Seq<(Seq<char>, Document)>;

/// The template that the document of `locale` holds at `path`.
pub open spec fn found_in(store: Store, locale: Seq<char>, path: Seq<Seq<char>>) -> Option<
    Seq<char>,
> {
    match child(Document::Table(store), locale) {
        Some(d) => template_at(d, path),
        None => None,
    }
}

/// How many pairs of the graph belong to a locale that is not on `trail`.
pub open spec fn unvisited(g: Graph, trail: Seq<Seq<char>>) -> nat
    decreases g.len(),
{
    if g.len() == 0 {
        0
    } else {
        unvisited(g.drop_last(), trail) + if trail.contains(g.last().0) {
            0nat
        } else {
            1nat
        }
    }
}

/// A longer trail leaves no more pairs unvisited, and fewer where the locale
/// that joins the trail has a pair and was not on the trail.
pub proof fn lemma_unvisited_shrinks(g: Graph, trail: Seq<Seq<char>>, locale: Seq<char>)
    ensures
        unvisited(g, trail.push(locale)) <= unvisited(g, trail),
        !trail.contains(locale) && (exists|i: int| 0 <= i < g.len() && (#[trigger] g[i]).0 == locale)
            ==> unvisited(g, trail.push(locale)) < unvisited(g, trail),
    decreases g.len(),
{
    let longer = trail.push(locale);
    assert(longer[trail.len() as int] == locale);
    assert forall|x: Seq<char>| trail.contains(x) implies longer.contains(x) by {
        let w = choose|w: int| 0 <= w < trail.len() && trail[w] == x;
        assert(longer[w] == x);
    }
    if g.len() > 0 {
        let shorter = g.drop_last();
        lemma_unvisited_shrinks(shorter, trail, locale);
        if !trail.contains(locale) && (exists|i: int|
            0 <= i < g.len() && (#[trigger] g[i]).0 == locale) {
            if g.last().0 != locale {
                let i = choose|i: int| 0 <= i < g.len() && (#[trigger] g[i]).0 == locale;
                assert(shorter[i].0 == locale);
            }
        }
    }
}

/// A locale with fallbacks has a pair in the graph.
pub proof fn lemma_fallbacks_need_a_pair(g: Graph, locale: Seq<char>, from: int)
    requires
        0 <= from,
        entry_index(g, locale, from) < g.len(),
    ensures
        exists|i: int| 0 <= i < g.len() && (#[trigger] g[i]).0 == locale,
    decreases g.len() - from,
{
    if from < g.len() {
        if g[from].0 == locale {
        } else {
            lemma_fallbacks_need_a_pair(g, locale, from + 1);
        }
    }
}

/// The template for `path` as seen from `locale`: its own, else the first
/// that `resolve_list` finds among its fallbacks. `trail` holds the locales
/// from the active one down to this one's parent; a locale that is on it is
/// asked for its own template only.
pub open spec fn resolve(
    g: Graph,
    store: Store,
    locale: Seq<char>,
    path: Seq<Seq<char>>,
    trail: Seq<Seq<char>>,
) -> Option<Seq<char>>
    decreases unvisited(g, trail), 0nat, 0nat,
{
    match found_in(store, locale, path) {
        Some(t) => Some(t),
        None => if trail.contains(locale) || direct_fallbacks(g, locale).len() == 0 {
            None
        } else {
            proof {
                lemma_fallbacks_need_a_pair(g, locale, 0);
                lemma_unvisited_shrinks(g, trail, locale);
            }
            resolve_list(g, store, direct_fallbacks(g, locale), 0, path, trail.push(locale))
        },
    }
}

/// The first template that the locales of `list` from index `from` on give,
/// each asked with its own fallbacks before the next. A locale that is
/// already on `trail` is passed over.
pub open spec fn resolve_list(
    g: Graph,
    store: Store,
    list: Seq<Seq<char>>,
    from: nat,
    path: Seq<Seq<char>>,
    trail: Seq<Seq<char>>,
) -> Option<Seq<char>>
    decreases unvisited(g, trail), 1nat, list.len() - from,
{
    if from >= list.len() {
        None
    } else if trail.contains(list[from as int]) {
        resolve_list(g, store, list, from + 1, path, trail)
    } else {
        match resolve(g, store, list[from as int], path, trail) {
            Some(t) => Some(t),
            None => resolve_list(g, store, list, from + 1, path, trail),
        }
    }
}

/// What an argument adds to the identifier, if it adds anything.
pub open spec fn suffix_of(arg: MessageLocatorFormatArgument) -> Option<Seq<char>> {
    match arg {
        MessageLocatorFormatArgument::Suffix(s) => Some(s@),
        MessageLocatorFormatArgument::Scalar(s) => Some(s@),
        MessageLocatorFormatArgument::Variables(_) => None,
    }
}

/// The identifier with the suffixes of `args`, each behind a `_`, in order.
pub open spec fn composed_id(id: Seq<char>, args: Seq<MessageLocatorFormatArgument>) -> Seq<char>
    decreases args.len(),
{
    if args.len() == 0 {
        id
    } else {
        let before = composed_id(id, args.drop_last());
        match suffix_of(args.last()) {
            Some(s) => before.push('_') + s,
            None => before,
        }
    }
}

/// One suffix comes to stand behind the identifier and a `_`.
pub proof fn lemma_one_suffix(id: Seq<char>, arg: MessageLocatorFormatArgument)
    requires
        suffix_of(arg) is Some,
    ensures
        composed_id(id, seq![arg]) == id.push('_') + suffix_of(arg)->Some_0,
{
    let args = seq![arg];
    assert(args.drop_last() =~= Seq::empty());
    assert(composed_id(id, args.drop_last()) == id);
}

/// Without arguments the identifier stays as it is and there are no
/// variables.
pub proof fn lemma_no_arguments(id: Seq<char>)
    ensures
        composed_id(id, Seq::empty()) == id,
        chosen_variables(Seq::empty()) == Seq::<(Seq<char>, Seq<char>)>::empty(),
{
}

/// The variables that `args` give: those of the last argument that holds
/// variables, none where no argument does.
pub open spec fn chosen_variables(args: Seq<MessageLocatorFormatArgument>) -> Seq<
    (Seq<char>, Seq<char>),
>
    decreases args.len(),
{
    if args.len() == 0 {
        Seq::empty()
    } else {
        match args.last() {
            MessageLocatorFormatArgument::Variables(v) => var_views(v@),
            _ => chosen_variables(args.drop_last()),
        }
    }
}

} // verus!
