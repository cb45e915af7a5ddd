//! What a locator is made from: the locales, their fallbacks, and where the
//! message fragments lie.

use vstd::prelude::*;
use vstd::string::*;
use crate::text::{copy_texts, texts};
use crate::fallback::{graph_view, Graph};

verus! {

/// How the fragments are fetched.
#[derive(Copy, Clone, PartialEq, Eq, Structural, Debug)]
pub enum MessageLocatorLoadVia {
    FileSystem,
    Http,
}

/// Where the fragments lie and how they are named.
pub struct MessageLocatorAssetOptions {
    pub src: String,
    pub base_file_names: Vec<String>,
    pub clean_unused: bool,
    pub load_via: MessageLocatorLoadVia,
}

impl MessageLocatorAssetOptions {
    /// The source `res/lang`, no fragment names, unused locales cleared on
    /// each load, fetched over HTTP.
    pub fn new() -> (r: Self)
        ensures
            r.src@ == "res/lang"@,
            r.base_file_names@.len() == 0,
            r.clean_unused,
            r.load_via == MessageLocatorLoadVia::Http,
    {
        MessageLocatorAssetOptions {
            src: String::from_str("res/lang"),
            base_file_names: Vec::new(),
            clean_unused: true,
            load_via: MessageLocatorLoadVia::Http,
        }
    }

    /// Sets the root under which the fragments lie.
    pub fn src(self, src: &str) -> (r: Self)
        ensures
            r.src@ == src@,
            r.base_file_names == self.base_file_names,
            r.clean_unused == self.clean_unused,
            r.load_via == self.load_via,
    {
        MessageLocatorAssetOptions {
            src: String::from_str(src),
            base_file_names: self.base_file_names,
            clean_unused: self.clean_unused,
            load_via: self.load_via,
        }
    }

    /// Sets the fragment names, in the order in which they are merged.
    pub fn base_file_names(self, list: Vec<String>) -> (r: Self)
        ensures
            r.base_file_names == list,
            r.src == self.src,
            r.clean_unused == self.clean_unused,
            r.load_via == self.load_via,
    {
        MessageLocatorAssetOptions {
            src: self.src,
            base_file_names: list,
            clean_unused: self.clean_unused,
            load_via: self.load_via,
        }
    }

    /// Sets whether a load discards the documents of earlier loads.
    pub fn clean_unused(self, value: bool) -> (r: Self)
        ensures
            r.clean_unused == value,
            r.src == self.src,
            r.base_file_names == self.base_file_names,
            r.load_via == self.load_via,
    {
        MessageLocatorAssetOptions {
            src: self.src,
            base_file_names: self.base_file_names,
            clean_unused: value,
            load_via: self.load_via,
        }
    }

    /// Sets how the fragments are fetched.
    pub fn load_via(self, value: MessageLocatorLoadVia) -> (r: Self)
        ensures
            r.load_via == value,
            r.src == self.src,
            r.base_file_names == self.base_file_names,
            r.clean_unused == self.clean_unused,
    {
        MessageLocatorAssetOptions {
            src: self.src,
            base_file_names: self.base_file_names,
            clean_unused: self.clean_unused,
            load_via: value,
        }
    }
}

impl Clone for MessageLocatorAssetOptions {
    /// A copy with the same contents.
    fn clone(&self) -> (r: Self)
        ensures
            r.src@ == self.src@,
            texts(r.base_file_names@) == texts(self.base_file_names@),
            r.clean_unused == self.clean_unused,
            r.load_via == self.load_via,
    {
        MessageLocatorAssetOptions {
            src: self.src.clone(),
            base_file_names: copy_texts(&self.base_file_names),
            clean_unused: self.clean_unused,
            load_via: self.load_via,
        }
    }
}

/// The configuration of a locator.
pub struct MessageLocatorOptions {
    pub default_locale: String,
    pub supported_locales: Vec<String>,
    pub fallbacks: Vec<(String, Vec<String>)>,
    pub assets: MessageLocatorAssetOptions,
}

impl MessageLocatorOptions {
    /// The fallback graph that these options declare.
    pub open spec fn graph(&self) -> Graph {
        graph_view(self.fallbacks@)
    }

    /// The one locale `en`, supported and the default, without fallbacks,
    /// with the asset options of `MessageLocatorAssetOptions::new`.
    pub fn new() -> (r: Self)
        ensures
            r.default_locale@ == "en"@,
            texts(r.supported_locales@) == seq!["en"@],
            r.fallbacks@.len() == 0,
            r.assets.src@ == "res/lang"@,
            r.assets.base_file_names@.len() == 0,
            r.assets.clean_unused,
            r.assets.load_via == MessageLocatorLoadVia::Http,
    {
        let mut supported: Vec<String> = Vec::new();
        supported.push(String::from_str("en"));
        assert(texts(supported@) =~= seq!["en"@]);
        MessageLocatorOptions {
            default_locale: String::from_str("en"),
            supported_locales: supported,
            fallbacks: Vec::new(),
            assets: MessageLocatorAssetOptions::new(),
        }
    }

    /// Sets the locale that a load without a locale takes.
    pub fn default_locale(self, value: &str) -> (r: Self)
        ensures
            r.default_locale@ == value@,
            r.supported_locales == self.supported_locales,
            r.fallbacks == self.fallbacks,
            r.assets == self.assets,
    {
        MessageLocatorOptions {
            default_locale: String::from_str(value),
            supported_locales: self.supported_locales,
            fallbacks: self.fallbacks,
            assets: self.assets,
        }
    }

    /// Sets the locales that can be loaded.
    pub fn supported_locales(self, list: Vec<String>) -> (r: Self)
        ensures
            r.supported_locales == list,
            r.default_locale == self.default_locale,
            r.fallbacks == self.fallbacks,
            r.assets == self.assets,
    {
        MessageLocatorOptions {
            default_locale: self.default_locale,
            supported_locales: list,
            fallbacks: self.fallbacks,
            assets: self.assets,
        }
    }

    /// Sets the fallbacks: pairs of a locale and its fallbacks in order.
    pub fn fallbacks(self, map: Vec<(String, Vec<String>)>) -> (r: Self)
        ensures
            r.fallbacks == map,
            r.default_locale == self.default_locale,
            r.supported_locales == self.supported_locales,
            r.assets == self.assets,
    {
        MessageLocatorOptions {
            default_locale: self.default_locale,
            supported_locales: self.supported_locales,
            fallbacks: map,
            assets: self.assets,
        }
    }

    /// Sets the asset options to a copy of `options`.
    pub fn assets(self, options: &MessageLocatorAssetOptions) -> (r: Self)
        ensures
            r.assets.src@ == options.src@,
            texts(r.assets.base_file_names@) == texts(options.base_file_names@),
            r.assets.clean_unused == options.clean_unused,
            r.assets.load_via == options.load_via,
            r.default_locale == self.default_locale,
            r.supported_locales == self.supported_locales,
            r.fallbacks == self.fallbacks,
    {
        MessageLocatorOptions {
            default_locale: self.default_locale,
            supported_locales: self.supported_locales,
            fallbacks: self.fallbacks,
            assets: options.clone(),
        }
    }
}

} // verus!
