//! The locator: it holds the configuration, the documents of the loaded
//! locales and the active locale, loads a locale with its fallbacks from
//! fetched fragments, and answers lookups.

use vstd::prelude::*;
use vstd::string::*;
use crate::text::{copy_texts, split, split_on, texts};
use crate::document::{
    child, entry_views, lemma_position, lemma_position_is, merged, position_of,
    AssetNode, Document,
};
use crate::fallback::{
    contains_text, direct_fallbacks, enumerate_fallbacks, find_entry, graph_view, is_closure,
    lemma_closure_unique, Graph,
};
use crate::interpolate::{apply_message, interpolated, var_views};
use crate::json::{parse_fragment, parsed_document};
use crate::options::{MessageLocatorLoadVia, MessageLocatorOptions};
use crate::resolve::{
    chosen_variables, composed_id, found_in, lemma_fallbacks_need_a_pair, lemma_unvisited_shrinks,
    resolve, resolve_list, unvisited, MessageLocatorFormatArgument, Store,
};

verus! {

/// Why a load failed.
#[derive(Copy, Clone, PartialEq, Eq, Structural, Debug)]
pub enum LoadError {
    /// The locale to load is not among the supported ones.
    UnsupportedLocale,
    /// A locale of the closure is not among the supported ones, so no
    /// directory is known for it.
    MissingPathComponent,
    /// A fragment could not be fetched.
    FetchFailed,
    /// A fragment's text is no well-formed document.
    ParseFailed,
}

/// What was fetched: pairs of a path and the text found there, `None` where
/// the fetch failed. Where a path stands twice, its first pair counts.
pub type Fetched = Seq<(Seq<char>, Option<Seq<char>>)>;

/// The view of a table of fetched texts.
pub open spec fn fetched_views(table: Seq<(String, Option<String>)>) -> Fetched {
    Seq::new(
        table.len(),
        |i: int|
            (
                table[i].0@,
                match table[i].1 {
                    Some(s) => Some(s@),
                    None => None,
                },
            ),
    )
}

/// The text fetched for `path`, looked for from index `from` on. A path that
/// the table does not name was not fetched.
pub open spec fn fetched_text(table: Fetched, path: Seq<char>, from: int) -> Option<Seq<char>>
    decreases table.len() - from,
{
    if from < 0 || from >= table.len() {
        None
    } else if table[from].0 == path {
        table[from].1
    } else {
        fetched_text(table, path, from + 1)
    }
}

/// The path of a fragment: source, locale and name, joined by `/`, with the
/// ending `.json`.
pub open spec fn fragment_path(src: Seq<char>, locale: Seq<char>, name: Seq<char>) -> Seq<char> {
    src + "/"@ + locale + "/"@ + name + ".json"@
}

/// Whether `x` is the path of a fragment with one of `names`, of any locale.
pub open spec fn is_fragment_path(src: Seq<char>, names: Seq<Seq<char>>, x: Seq<char>) -> bool {
    exists|l: Seq<char>, n: int|
        0 <= n < names.len() && x == #[trigger] fragment_path(src, l, names[n])
}

/// The document of `locale` after the first `n` fragments have been merged,
/// in the order of `names`, or the failure of the first fragment that could
/// not be fetched or parsed.
pub open spec fn built_document(
    src: Seq<char>,
    locale: Seq<char>,
    names: Seq<Seq<char>>,
    table: Fetched,
    n: int,
) -> Result<Document, LoadError>
    decreases n,
{
    if n <= 0 {
        Ok(Document::Table(Seq::empty()))
    } else {
        match built_document(src, locale, names, table, n - 1) {
            Err(e) => Err(e),
            Ok(doc) => match fetched_text(table, fragment_path(src, locale, names[n - 1]), 0) {
                None => Err(LoadError::FetchFailed),
                Some(text) => match parsed_document(text) {
                    None => Err(LoadError::ParseFailed),
                    Some(v) => Ok(merged(doc, names[n - 1], v)),
                },
            },
        }
    }
}

/// A failure stays: once a fragment has failed, the fragments after it do
/// not change the outcome.
pub proof fn lemma_failure_stays(
    src: Seq<char>,
    locale: Seq<char>,
    names: Seq<Seq<char>>,
    table: Fetched,
    m: int,
    n: int,
)
    requires
        m <= n,
        built_document(src, locale, names, table, m) is Err,
    ensures
        built_document(src, locale, names, table, n) == built_document(src, locale, names, table, m),
    decreases n - m,
{
    if m < n {
        lemma_failure_stays(src, locale, names, table, m, n - 1);
    }
}

/// Building a document never fails for want of support of the locale to
/// load: that is decided before anything is built.
pub proof fn lemma_build_failures(
    src: Seq<char>,
    locale: Seq<char>,
    names: Seq<Seq<char>>,
    table: Fetched,
    n: int,
)
    ensures
        built_document(src, locale, names, table, n) != Err::<Document, LoadError>(
            LoadError::UnsupportedLocale,
        ),
        built_document(src, locale, names, table, n) != Err::<Document, LoadError>(
            LoadError::MissingPathComponent,
        ),
    decreases n,
{
    if n > 0 {
        lemma_build_failures(src, locale, names, table, n - 1);
    }
}

/// The text fetched for `path`.
pub fn find_fetched<'a>(table: &'a Vec<(String, Option<String>)>, path: &String) -> (r: Option<
    &'a String,
>)
    ensures
        match r {
            Some(s) => fetched_text(fetched_views(table@), path@, 0) == Some(s@),
            None => fetched_text(fetched_views(table@), path@, 0) is None,
        },
{
    let mut i: usize = 0;
    while i < table.len()
        invariant
            i <= table.len(),
            fetched_text(fetched_views(table@), path@, 0) == fetched_text(
                fetched_views(table@),
                path@,
                i as int,
            ),
        decreases table.len() - i,
    {
        if table[i].0 == *path {
            return match &table[i].1 {
                Some(s) => Some(s),
                None => None,
            };
        }
        i = i + 1;
    }
    None
}

/// A copy of a fallback graph.
fn copy_graph(g: &Vec<(String, Vec<String>)>) -> (r: Vec<(String, Vec<String>)>)
    ensures
        graph_view(r@) == graph_view(g@),
{
    let mut r: Vec<(String, Vec<String>)> = Vec::new();
    let mut i: usize = 0;
    while i < g.len()
        invariant
            i <= g.len(),
            graph_view(r@) == graph_view(g@).take(i as int),
        decreases g.len() - i,
    {
        let ghost before = graph_view(r@);
        let key = g[i].0.clone();
        let list = copy_texts(&g[i].1);
        r.push((key, list));
        assert(graph_view(r@) =~= before.push((key@, texts(list@))));
        i = i + 1;
        assert(graph_view(r@) =~= graph_view(g@).take(i as int));
    }
    assert(graph_view(g@).take(g.len() as int) =~= graph_view(g@));
    r
}

/// A copy of the documents of a store.
fn copy_store(store: &Vec<(String, AssetNode)>) -> (r: Vec<(String, AssetNode)>)
    ensures
        entry_views(r@) == entry_views(store@),
{
    let mut r: Vec<(String, AssetNode)> = Vec::new();
    let mut i: usize = 0;
    while i < store.len()
        invariant
            i <= store.len(),
            entry_views(r@) == entry_views(store@).take(i as int),
        decreases store.len() - i,
    {
        let ghost before = entry_views(r@);
        let key = store[i].0.clone();
        let doc = store[i].1.clone();
        r.push((key, doc));
        assert(entry_views(r@) =~= before.push((key@, doc@)));
        i = i + 1;
        assert(entry_views(r@) =~= entry_views(store@).take(i as int));
    }
    assert(entry_views(store@).take(store.len() as int) =~= entry_views(store@));
    r
}

/// Looks messages up by identifier, in the active locale and its fallbacks.
pub struct MessageLocator {
    current_locale: Option<String>,
    supported_locales: Vec<String>,
    default_locale: String,
    fallbacks: Vec<(String, Vec<String>)>,
    assets: Vec<(String, AssetNode)>,
    assets_src: String,
    assets_base_file_names: Vec<String>,
    assets_clean_unused: bool,
    assets_load_via: MessageLocatorLoadVia,
}

impl MessageLocator {
    /// The active locale; none before the first load that succeeded.
    pub closed spec fn current(&self) -> Option<Seq<char>> {
        match self.current_locale {
            Some(l) => Some(l@),
            None => None,
        }
    }

    /// The locales that can be loaded.
    pub closed spec fn supported(&self) -> Seq<Seq<char>> {
        texts(self.supported_locales@)
    }

    /// The locale that a load without a locale takes.
    pub closed spec fn default_code(&self) -> Seq<char> {
        self.default_locale@
    }

    /// The fallback graph.
    pub closed spec fn graph(&self) -> Graph {
        graph_view(self.fallbacks@)
    }

    /// The documents of the loaded locales.
    pub closed spec fn store(&self) -> Store {
        entry_views(self.assets@)
    }

    /// The root under which the fragments lie.
    pub closed spec fn source(&self) -> Seq<char> {
        self.assets_src@
    }

    /// The fragment names, in the order in which they are merged.
    pub closed spec fn names(&self) -> Seq<Seq<char>> {
        texts(self.assets_base_file_names@)
    }

    /// Whether a load discards the documents of earlier loads.
    pub closed spec fn clean(&self) -> bool {
        self.assets_clean_unused
    }

    /// How the fragments are fetched.
    pub closed spec fn via(&self) -> MessageLocatorLoadVia {
        self.assets_load_via
    }

    /// The document stored for `locale`.
    pub open spec fn document(&self, locale: Seq<char>) -> Option<Document> {
        child(Document::Table(self.store()), locale)
    }

    /// The locale that a load takes: the one given, else the default.
    pub open spec fn target(&self, new_locale: Option<Seq<char>>) -> Seq<char> {
        match new_locale {
            Some(l) => l,
            None => self.default_code(),
        }
    }

    /// The document that a load builds for `locale` from what was fetched,
    /// or why it cannot.
    pub open spec fn locale_document(&self, locale: Seq<char>, table: Fetched) -> Result<
        Document,
        LoadError,
    > {
        if !self.supported().contains(locale) {
            Err(LoadError::MissingPathComponent)
        } else {
            built_document(self.source(), locale, self.names(), table, self.names().len() as int)
        }
    }

    /// The document stored for `l` after a load of the closure `c` that
    /// succeeded.
    pub open spec fn document_after(&self, c: Seq<Seq<char>>, table: Fetched, l: Seq<char>) -> Option<
        Document,
    > {
        if c.contains(l) {
            match self.locale_document(l, table) {
                Ok(d) => Some(d),
                Err(_) => None,
            }
        } else if self.clean() {
            None
        } else {
            self.document(l)
        }
    }

    /// What a load of the locale `t` from `table` has made of this locator,
    /// `after`, when it ended with `r`.
    ///
    /// It succeeds if and only if `t` is supported and the document of every
    /// locale of the closure of `t` can be built. Then `t` is the active
    /// locale and the store holds what `document_after` says. Else the
    /// locator is as it was, and the failure is `UnsupportedLocale` exactly
    /// where `t` is not supported, and otherwise one that building the
    /// document of a locale of the closure gives.
    pub open spec fn loaded(
        &self,
        after: &MessageLocator,
        t: Seq<char>,
        table: Fetched,
        r: Result<(), LoadError>,
    ) -> bool {
        &&& after.same_config(self)
        &&& match r {
            Ok(_) => {
                &&& self.supported().contains(t)
                &&& after.current() == Some(t)
                &&& forall|c: Seq<Seq<char>>, k: int|
                    is_closure(self.graph(), t, c) && 0 <= k < c.len() ==> (
                    #[trigger] self.locale_document(c[k], table)) is Ok
                &&& forall|c: Seq<Seq<char>>, l: Seq<char>|
                    is_closure(self.graph(), t, c) ==> after.document(l)
                        == #[trigger] self.document_after(c, table, l)
            },
            Err(e) => {
                &&& *after == *self
                &&& e == LoadError::UnsupportedLocale <==> !self.supported().contains(t)
                &&& self.supported().contains(t) ==> exists|c: Seq<Seq<char>>, k: int|
                    is_closure(self.graph(), t, c) && 0 <= k < c.len()
                        && #[trigger] self.locale_document(c[k], table) == Err::<
                        Document,
                        LoadError,
                    >(e)
            },
        }
    }

    /// Whether two locators have the same configuration.
    pub open spec fn same_config(&self, other: &MessageLocator) -> bool {
        &&& self.supported() == other.supported()
        &&& self.default_code() == other.default_code()
        &&& self.graph() == other.graph()
        &&& self.source() == other.source()
        &&& self.names() == other.names()
        &&& self.clean() == other.clean()
        &&& self.via() == other.via()
    }

    /// The message for `id` with `vars`: the template that the active locale
    /// or its fallbacks give for the identifier cut at each `.`, expanded; the
    /// identifier itself, which is its pieces joined with `.` again, where no
    /// locale is active or none gives a template.
    pub open spec fn message(&self, id: Seq<char>, vars: Seq<(Seq<char>, Seq<char>)>) -> Seq<char> {
        match self.current() {
            None => id,
            Some(l) => match resolve(
                self.graph(),
                self.store(),
                l,
                split_on(id, '.'),
                Seq::empty(),
            ) {
                Some(t) => interpolated(t, vars),
                None => id,
            },
        }
    }

    /// A locator with the configuration of `options`, no document and no
    /// active locale.
    pub fn new(options: &MessageLocatorOptions) -> (r: Self)
        ensures
            r.current() is None,
            r.store().len() == 0,
            r.supported() == texts(options.supported_locales@),
            r.default_code() == options.default_locale@,
            r.graph() == options.graph(),
            r.source() == options.assets.src@,
            r.names() == texts(options.assets.base_file_names@),
            r.clean() == options.assets.clean_unused,
            r.via() == options.assets.load_via,
    {
        MessageLocator {
            current_locale: None,
            supported_locales: copy_texts(&options.supported_locales),
            default_locale: options.default_locale.clone(),
            fallbacks: copy_graph(&options.fallbacks),
            assets: Vec::new(),
            assets_src: options.assets.src.clone(),
            assets_base_file_names: copy_texts(&options.assets.base_file_names),
            assets_clean_unused: options.assets.clean_unused,
            assets_load_via: options.assets.load_via,
        }
    }

    /// The supported locales.
    pub fn supported_locales(&self) -> (r: Vec<String>)
        ensures
            texts(r@) == self.supported(),
    {
        copy_texts(&self.supported_locales)
    }

    /// Whether `arg` is one of the supported locales.
    pub fn supports_locale(&self, arg: &String) -> (r: bool)
        ensures
            r == self.supported().contains(arg@),
    {
        contains_text(&self.supported_locales, arg)
    }

    /// The active locale.
    pub fn current_locale(&self) -> (r: Option<String>)
        ensures
            match r {
                Some(l) => self.current() == Some(l@),
                None => self.current() is None,
            },
    {
        match &self.current_locale {
            Some(l) => Some(l.clone()),
            None => None,
        }
    }

    /// How the fragments are to be fetched.
    pub fn load_via(&self) -> (r: MessageLocatorLoadVia)
        ensures
            r == self.via(),
    {
        self.assets_load_via
    }

    /// The active locale with its closure; empty where no locale is active.
    pub fn current_locale_seq(&self) -> (r: Vec<String>)
        ensures
            match self.current() {
                Some(l) => is_closure(self.graph(), l, texts(r@)),
                None => r@.len() == 0,
            },
    {
        match &self.current_locale {
            Some(l) => enumerate_fallbacks(&self.fallbacks, l),
            None => Vec::new(),
        }
    }

    /// The path under which the fragment `base_name` of `locale` lies.
    pub fn fragment_path(&self, locale: &String, base_name: &String) -> (r: String)
        ensures
            r@ == fragment_path(self.source(), locale@, base_name@),
    {
        let mut r = self.assets_src.clone();
        r.append("/");
        r.append(locale.as_str());
        r.append("/");
        r.append(base_name.as_str());
        r.append(".json");
        r
    }

    /// Builds the document of one locale from what was fetched: the
    /// fragments are parsed and merged in the order of their names.
    pub fn load_single_locale(&self, locale: &String, table: &Vec<(String, Option<String>)>) -> (r:
        Result<AssetNode, LoadError>)
        ensures
            match r {
                Ok(d) => self.locale_document(locale@, fetched_views(table@)) == Ok::<
                    Document,
                    LoadError,
                >(d@),
                Err(e) => self.locale_document(locale@, fetched_views(table@)) == Err::<
                    Document,
                    LoadError,
                >(e),
            },
    {
        if !contains_text(&self.supported_locales, locale) {
            return Err(LoadError::MissingPathComponent);
        }
        let ghost fv = fetched_views(table@);
        let mut doc = AssetNode::new();
        let mut k: usize = 0;
        while k < self.assets_base_file_names.len()
            invariant
                k <= self.assets_base_file_names.len(),
                fv == fetched_views(table@),
                self.supported().contains(locale@),
                built_document(self.source(), locale@, self.names(), fv, k as int) == Ok::<
                    Document,
                    LoadError,
                >(doc@),
            decreases self.assets_base_file_names.len() - k,
        {
            let name = &self.assets_base_file_names[k];
            assert(self.names()[k as int] == name@);
            let path = self.fragment_path(locale, name);
            let ghost next = built_document(self.source(), locale@, self.names(), fv, k + 1);
            match find_fetched(table, &path) {
                None => {
                    proof {
                        assert(next == Err::<Document, LoadError>(LoadError::FetchFailed));
                        lemma_failure_stays(
                            self.source(),
                            locale@,
                            self.names(),
                            fv,
                            k + 1,
                            self.names().len() as int,
                        );
                    }
                    return Err(LoadError::FetchFailed);
                },
                Some(text) => match parse_fragment(text.as_str()) {
                    None => {
                        proof {
                            assert(next == Err::<Document, LoadError>(LoadError::ParseFailed));
                            lemma_failure_stays(
                                self.source(),
                                locale@,
                                self.names(),
                                fv,
                                k + 1,
                                self.names().len() as int,
                            );
                        }
                        return Err(LoadError::ParseFailed);
                    },
                    Some(v) => {
                        doc.apply_deep(name.as_str(), v);
                    },
                },
            }
            k = k + 1;
        }
        Ok(doc)
    }
}

impl Clone for MessageLocator {
    /// A locator with the same configuration, documents and active locale.
    fn clone(&self) -> (r: Self)
        ensures
            r.same_config(self),
            r.current() == self.current(),
            r.store() == self.store(),
    {
        MessageLocator {
            current_locale: match &self.current_locale {
                Some(l) => Some(l.clone()),
                None => None,
            },
            supported_locales: copy_texts(&self.supported_locales),
            default_locale: self.default_locale.clone(),
            fallbacks: copy_graph(&self.fallbacks),
            assets: copy_store(&self.assets),
            assets_src: self.assets_src.clone(),
            assets_base_file_names: copy_texts(&self.assets_base_file_names),
            assets_clean_unused: self.assets_clean_unused,
            assets_load_via: self.assets_load_via,
        }
    }
}

/// What a store holds for a locale once the documents of a closure stand
/// before the earlier ones.
proof fn lemma_installed(docs: Store, previous: Store, c: Seq<Seq<char>>, l: Seq<char>)
    requires
        docs.len() == c.len(),
        forall|k: int| 0 <= k < c.len() ==> (#[trigger] docs[k]).0 == c[k],
        c.no_duplicates(),
    ensures
        forall|k: int|
            0 <= k < c.len() && c[k] == l ==> child(Document::Table(docs + previous), l) == Some(
                (#[trigger] docs[k]).1,
            ),
        !c.contains(l) ==> child(Document::Table(docs + previous), l) == child(
            Document::Table(previous),
            l,
        ),
{
    let all = docs + previous;
    if c.contains(l) {
        let k = choose|k: int| 0 <= k < c.len() && c[k] == l;
        assert forall|m: int| 0 <= m < k implies (#[trigger] all[m]).0 != l by {
            assert(all[m] == docs[m]);
        }
        assert(all[k] == docs[k]);
        lemma_position_is(all, l, k);
    } else {
        lemma_position(previous, l, 0);
        let p = crate::document::position(previous, l, 0);
        assert forall|m: int| 0 <= m < docs.len() + p implies (#[trigger] all[m]).0 != l by {
            if m < docs.len() {
                assert(all[m] == docs[m]);
                assert(c[m] != l);
            } else {
                assert(all[m] == previous[m - docs.len()]);
            }
        }
        if p < previous.len() {
            assert(all[docs.len() + p] == previous[p]);
        }
        lemma_position_is(all, l, docs.len() + p);
    }
}

/// A list of strings with one more at its end.
fn extended(list: &Vec<String>, x: &String) -> (r: Vec<String>)
    ensures
        texts(r@) == texts(list@).push(x@),
{
    let mut r = copy_texts(list);
    let ghost before = texts(r@);
    r.push(x.clone());
    assert(texts(r@) =~= before.push(x@));
    r
}

impl MessageLocator {
    /// The paths of all fragments that a load of `new_locale`, or of the
    /// default locale where none is given, reads: one for each locale of the
    /// closure and each fragment name.
    pub fn fragment_paths(&self, new_locale: Option<&String>) -> (r: Vec<String>)
        ensures
            forall|c: Seq<Seq<char>>, k: int, n: int|
                is_closure(
                    self.graph(),
                    self.target(
                        match new_locale {
                            Some(l) => Some(l@),
                            None => None,
                        },
                    ),
                    c,
                ) && 0 <= k < c.len() && 0 <= n < self.names().len() ==> texts(r@).contains(
                    #[trigger] fragment_path(self.source(), c[k], self.names()[n]),
                ),
            forall|m: int|
                0 <= m < r@.len() ==> is_fragment_path(
                    self.source(),
                    self.names(),
                    #[trigger] texts(r@)[m],
                ),
    {
        let target = match new_locale {
            Some(l) => l.clone(),
            None => self.default_locale.clone(),
        };
        let c = enumerate_fallbacks(&self.fallbacks, &target);
        let ghost c0 = texts(c@);
        let ghost src = self.source();
        let ghost names = self.names();
        let mut r: Vec<String> = Vec::new();
        let mut i: usize = 0;
        while i < c.len()
            invariant
                i <= c.len(),
                c0 == texts(c@),
                src == self.source(),
                names == self.names(),
                forall|k: int, n: int|
                    0 <= k < i && 0 <= n < names.len() ==> texts(r@).contains(
                        #[trigger] fragment_path(src, c0[k], names[n]),
                    ),
                forall|m: int|
                    0 <= m < r@.len() ==> is_fragment_path(src, names, #[trigger] texts(r@)[m]),
            decreases c.len() - i,
        {
            let mut j: usize = 0;
            while j < self.assets_base_file_names.len()
                invariant
                    i < c.len(),
                    j <= self.assets_base_file_names.len(),
                    c0 == texts(c@),
                    src == self.source(),
                    names == self.names(),
                    forall|k: int, n: int|
                        0 <= k < i && 0 <= n < names.len() ==> texts(r@).contains(
                            #[trigger] fragment_path(src, c0[k], names[n]),
                        ),
                    forall|n: int|
                        0 <= n < j ==> texts(r@).contains(
                            #[trigger] fragment_path(src, c0[i as int], names[n]),
                        ),
                    forall|m: int|
                        0 <= m < r@.len() ==> is_fragment_path(
                            src,
                            names,
                            #[trigger] texts(r@)[m],
                        ),
                decreases self.assets_base_file_names.len() - j,
            {
                let ghost before = texts(r@);
                let path = self.fragment_path(&c[i], &self.assets_base_file_names[j]);
                assert(path@ == fragment_path(src, c0[i as int], names[j as int]));
                r.push(path);
                proof {
                    let after = texts(r@);
                    assert(after =~= before.push(path@));
                    assert forall|x: Seq<char>| before.contains(x) implies after.contains(x) by {
                        let w = choose|w: int| 0 <= w < before.len() && before[w] == x;
                        assert(after[w] == x);
                    }
                    assert(after[before.len() as int] == path@);
                    assert forall|m: int| 0 <= m < after.len() implies is_fragment_path(
                        src,
                        names,
                        #[trigger] after[m],
                    ) by {
                        if m < before.len() {
                            assert(after[m] == before[m]);
                        } else {
                            assert(after[m] == fragment_path(src, c0[i as int], names[j as int]));
                        }
                    }
                }
                j = j + 1;
            }
            i = i + 1;
        }
        proof {
            let t = self.target(
                match new_locale {
                    Some(l) => Some(l@),
                    None => None,
                },
            );
            assert forall|c1: Seq<Seq<char>>, k: int, n: int|
                is_closure(self.graph(), t, c1) && 0 <= k < c1.len() && 0 <= n
                    < names.len() implies texts(r@).contains(
                #[trigger] fragment_path(src, c1[k], names[n]),
            ) by {
                lemma_closure_unique(self.graph(), t, c0, c1);
                assert(c1.to_set().contains(c1[k]));
                assert(c0.to_set().contains(c1[k]));
                let m = choose|m: int| 0 <= m < c0.len() && c0[m] == c1[k];
                assert(texts(r@).contains(fragment_path(src, c0[m], names[n])));
            }
        }
        r
    }

    /// Builds the documents of the closure of the locale to load, without
    /// changing anything.
    fn prepare(&self, target: &String, table: &Vec<(String, Option<String>)>) -> (r: Result<
        (Vec<String>, Vec<(String, AssetNode)>),
        LoadError,
    >)
        ensures
            match r {
                Ok((c, docs)) => {
                    &&& self.supported().contains(target@)
                    &&& is_closure(self.graph(), target@, texts(c@))
                    &&& docs@.len() == c@.len()
                    &&& forall|k: int|
                        0 <= k < c@.len() ==> (#[trigger] entry_views(docs@)[k]).0 == texts(c@)[k]
                    &&& forall|k: int|
                        0 <= k < c@.len() ==> self.locale_document(
                            #[trigger] texts(c@)[k],
                            fetched_views(table@),
                        ) == Ok::<Document, LoadError>(entry_views(docs@)[k].1)
                },
                Err(e) => {
                    &&& e == LoadError::UnsupportedLocale <==> !self.supported().contains(target@)
                    &&& self.supported().contains(target@) ==> exists|c: Seq<Seq<char>>, k: int|
                        is_closure(self.graph(), target@, c) && 0 <= k < c.len()
                            && #[trigger] self.locale_document(c[k], fetched_views(table@)) == Err::<
                            Document,
                            LoadError,
                        >(e)
                },
            },
    {
        if !contains_text(&self.supported_locales, target) {
            return Err(LoadError::UnsupportedLocale);
        }
        let c = enumerate_fallbacks(&self.fallbacks, target);
        let mut docs: Vec<(String, AssetNode)> = Vec::new();
        let mut k: usize = 0;
        while k < c.len()
            invariant
                k <= c.len(),
                self.supported().contains(target@),
                is_closure(self.graph(), target@, texts(c@)),
                docs@.len() == k,
                forall|m: int| 0 <= m < k ==> (#[trigger] entry_views(docs@)[m]).0 == texts(c@)[m],
                forall|m: int|
                    0 <= m < k ==> self.locale_document(
                        #[trigger] texts(c@)[m],
                        fetched_views(table@),
                    ) == Ok::<Document, LoadError>(entry_views(docs@)[m].1),
            decreases c.len() - k,
        {
            let ghost before = entry_views(docs@);
            match self.load_single_locale(&c[k], table) {
                Err(e) => {
                    proof {
                        lemma_build_failures(
                            self.source(),
                            texts(c@)[k as int],
                            self.names(),
                            fetched_views(table@),
                            self.names().len() as int,
                        );
                    }
                    assert(self.locale_document(texts(c@)[k as int], fetched_views(table@)) == Err::<
                        Document,
                        LoadError,
                    >(e));
                    return Err(e);
                },
                Ok(d) => {
                    let key = c[k].clone();
                    docs.push((key, d));
                    assert(entry_views(docs@) =~= before.push((key@, d@)));
                },
            }
            k = k + 1;
        }
        Ok((c, docs))
    }

    /// Loads `new_locale`, or the default locale where none is given, with
    /// the whole closure of its fallbacks, from the fragments in `table`.
    ///
    /// The load succeeds if the locale is supported and the document of every
    /// locale of the closure can be built. Then the store holds these
    /// documents, beside the earlier ones of other locales unless unused ones
    /// are cleared, and the locale is the active one. A load that fails
    /// changes nothing.
    pub fn load(&mut self, new_locale: Option<&String>, table: &Vec<(String, Option<String>)>) -> (r:
        Result<(), LoadError>)
        ensures
            old(self).loaded(
                final(self),
                old(self).target(
                    match new_locale {
                        Some(l) => Some(l@),
                        None => None,
                    },
                ),
                fetched_views(table@),
                r,
            ),
    {
        let target = match new_locale {
            Some(l) => l.clone(),
            None => self.default_locale.clone(),
        };
        let ghost before = *self;
        let ghost fv = fetched_views(table@);
        match self.prepare(&target, table) {
            Err(e) => Err(e),
            Ok((c, docs)) => {
                let ghost c0 = texts(c@);
                let ghost new_docs = entry_views(docs@);
                let ghost previous: Store = if self.assets_clean_unused {
                    Seq::empty()
                } else {
                    before.store()
                };
                let mut installed = docs;
                if !self.assets_clean_unused {
                    let mut earlier: Vec<(String, AssetNode)> = Vec::new();
                    core::mem::swap(&mut self.assets, &mut earlier);
                    installed.append(&mut earlier);
                }
                assert(entry_views(installed@) =~= new_docs + previous);
                self.assets = installed;
                self.current_locale = Some(target);
                proof {
                    assert forall|c1: Seq<Seq<char>>, k: int|
                        is_closure(before.graph(), target@, c1) && 0 <= k < c1.len() implies (
                    #[trigger] before.locale_document(c1[k], fv)) is Ok by {
                        lemma_closure_unique(before.graph(), target@, c0, c1);
                        assert(c1.to_set().contains(c1[k]));
                        assert(c0.to_set().contains(c1[k]));
                        let m = choose|m: int| 0 <= m < c0.len() && c0[m] == c1[k];
                        assert(before.locale_document(c0[m], fv) is Ok);
                    }
                    assert forall|c1: Seq<Seq<char>>, l: Seq<char>|
                        is_closure(before.graph(), target@, c1) implies self.document(l)
                        == #[trigger] before.document_after(c1, fv, l) by {
                        lemma_closure_unique(before.graph(), target@, c0, c1);
                        lemma_installed(new_docs, previous, c0, l);
                        assert(c1.contains(l) == c1.to_set().contains(l));
                        assert(c0.contains(l) == c0.to_set().contains(l));
                        if c0.contains(l) {
                            let m = choose|m: int| 0 <= m < c0.len() && c0[m] == l;
                            assert(before.locale_document(c0[m], fv) == Ok::<Document, LoadError>(
                                new_docs[m].1,
                            ));
                        } else if before.clean() {
                            assert(previous.len() == 0);
                        }
                    }
                }
                Ok(())
            },
        }
    }

    /// Loads `new_locale` as `load` does.
    pub fn update_locale(&mut self, new_locale: &String, table: &Vec<(String, Option<String>)>) -> (r:
        Result<(), LoadError>)
        ensures
            old(self).loaded(final(self), new_locale@, fetched_views(table@), r),
    {
        self.load(Some(new_locale), table)
    }

    /// The template of `locale` for `id`.
    fn template_in(&self, locale: &String, id: &Vec<String>) -> (r: Option<String>)
        ensures
            match r {
                Some(t) => found_in(self.store(), locale@, texts(id@)) == Some(t@),
                None => found_in(self.store(), locale@, texts(id@)) is None,
            },
    {
        let p = position_of(&self.assets, locale);
        if p < self.assets.len() {
            self.assets[p].1.resolve_id(id)
        } else {
            None
        }
    }

    /// The template for `id` as seen from `locale`: its own, else the first
    /// that its fallbacks give, each asked with its own fallbacks before the
    /// next; a fallback that is already on `trail` is passed over.
    pub fn get_formatted_with_locale(&self, locale: &String, id: &Vec<String>, trail: &Vec<String>) -> (r:
        Option<String>)
        ensures
            match r {
                Some(t) => resolve(self.graph(), self.store(), locale@, texts(id@), texts(trail@))
                    == Some(t@),
                None => resolve(self.graph(), self.store(), locale@, texts(id@), texts(trail@))
                    is None,
            },
        decreases unvisited(self.graph(), texts(trail@)),
    {
        match self.template_in(locale, id) {
            Some(t) => {
                return Some(t);
            },
            None => {},
        }
        if contains_text(trail, locale) {
            return None;
        }
        let p = find_entry(&self.fallbacks, locale);
        let ghost list_view = direct_fallbacks(self.graph(), locale@);
        if p >= self.fallbacks.len() {
            assert(list_view.len() == 0);
            return None;
        }
        let list = &self.fallbacks[p].1;
        assert(texts(list@) == list_view);
        if list.len() == 0 {
            return None;
        }
        let next = extended(trail, locale);
        proof {
            lemma_fallbacks_need_a_pair(self.graph(), locale@, 0);
            lemma_unvisited_shrinks(self.graph(), texts(trail@), locale@);
        }
        let ghost whole = resolve(self.graph(), self.store(), locale@, texts(id@), texts(trail@));
        assert(whole == resolve_list(
            self.graph(),
            self.store(),
            list_view,
            0,
            texts(id@),
            texts(next@),
        ));
        let mut j: usize = 0;
        while j < list.len()
            invariant
                j <= list.len(),
                texts(list@) == list_view,
                unvisited(self.graph(), texts(next@)) < unvisited(self.graph(), texts(trail@)),
                whole == resolve(self.graph(), self.store(), locale@, texts(id@), texts(trail@)),
                whole == resolve_list(
                    self.graph(),
                    self.store(),
                    list_view,
                    j as nat,
                    texts(id@),
                    texts(next@),
                ),
            decreases list.len() - j,
        {
            assert(list_view[j as int] == list@[j as int]@);
            if !contains_text(&next, &list[j]) {
                let r = self.get_formatted_with_locale(&list[j], id, &next);
                if r.is_some() {
                    assert(whole == Some(r->Some_0@));
                    return r;
                }
            }
            j = j + 1;
        }
        None
    }

    /// The message for `id`, without arguments.
    pub fn get(&self, id: &str) -> (r: String)
        ensures
            r@ == self.message(id@, Seq::empty()),
    {
        let options: Vec<MessageLocatorFormatArgument> = Vec::new();
        self.get_formatted(id, &options)
    }

    /// The message for `id` with the arguments `options`: each suffix is
    /// joined to the identifier with `_`, and the variables of the last
    /// argument that holds any are put into the template.
    pub fn get_formatted(&self, id: &str, options: &Vec<MessageLocatorFormatArgument>) -> (r: String)
        ensures
            r@ == self.message(composed_id(id@, options@), chosen_variables(options@)),
    {
        let none: Vec<(String, String)> = Vec::new();
        let mut variables: &Vec<(String, String)> = &none;
        let mut full = String::from_str(id);
        let mut i: usize = 0;
        assert(options@.take(0) =~= Seq::empty());
        assert(var_views(none@) =~= Seq::empty());
        while i < options.len()
            invariant
                i <= options.len(),
                full@ == composed_id(id@, options@.take(i as int)),
                var_views(variables@) == chosen_variables(options@.take(i as int)),
            decreases options.len() - i,
        {
            proof {
                let now = options@.take(i + 1);
                assert(now.drop_last() =~= options@.take(i as int));
                assert(now.last() == options@[i as int]);
            }
            match &options[i] {
                MessageLocatorFormatArgument::Suffix(s) => {
                    full.push('_');
                    full.append(s.as_str());
                },
                MessageLocatorFormatArgument::Scalar(s) => {
                    full.push('_');
                    full.append(s.as_str());
                },
                MessageLocatorFormatArgument::Variables(v) => {
                    variables = v;
                },
            }
            i = i + 1;
        }
        assert(options@.take(options.len() as int) =~= options@);
        match &self.current_locale {
            None => full,
            Some(l) => {
                let path = split(full.as_str(), '.');
                let trail: Vec<String> = Vec::new();
                assert(texts(trail@) =~= Seq::empty());
                match self.get_formatted_with_locale(l, &path, &trail) {
                    Some(t) => apply_message(t.as_str(), variables),
                    None => full,
                }
            },
        }
    }
}

} // verus!
