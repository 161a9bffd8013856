//! Reversible obfuscation transforms used by several streaming sites, the
//! per-site pipelines built from them, an OpenSSL-style salted AES-CBC
//! decryption, and a de-packer for `eval(function(p,a,c,k,e,d){...})` scripts.
use vstd::prelude::*;

pub mod animekai;
pub mod ciphers;
pub mod codec;
pub mod mal;
pub mod megacloud;
pub mod megaup;
pub mod pipeline;
pub mod scrape;
pub mod text;
pub mod unpacker;

use crate::text::same_text;

verus! {

/// The lower-case form of `s`, as `str::to_lowercase` gives it.
pub uninterp spec fn lower_of(s: Seq<char>) -> Seq<char>;

/// Relies on `str::to_lowercase`: the result depends on the characters alone.
#[verifier::external_body]
fn lowercase(s: &str) -> (r: String)
    ensures
        r@ == lower_of(s@),
{
    s.to_lowercase()
}

/// A supported streaming site.
#[derive(Debug, PartialEq, Eq, Structural, Clone, Copy)]
pub enum Provider {
    HiAnime,
    AnimeKai,
    AnimePahe,
}

/// The provider that a lower-case name stands for.
pub open spec fn provider_named(s: Seq<char>) -> Option<Provider> {
    if s == "hianime"@ {
        Some(Provider::HiAnime)
    } else if s == "animekai"@ {
        Some(Provider::AnimeKai)
    } else if s == "animepahe"@ {
        Some(Provider::AnimePahe)
    } else {
        None
    }
}

impl Provider {
    /// The provider named by `s`, which is already in lower case.
    pub fn from_lowercase(s: &str) -> (r: Option<Provider>)
        ensures
            r == provider_named(s@),
    {
        if same_text(s, "hianime") {
            Some(Provider::HiAnime)
        } else if same_text(s, "animekai") {
            Some(Provider::AnimeKai)
        } else if same_text(s, "animepahe") {
            Some(Provider::AnimePahe)
        } else {
            None
        }
    }

    /// The provider named by `s`, in any case.
    pub fn from(s: &str) -> (r: Option<Provider>)
        ensures
            r == provider_named(lower_of(s@)),
    {
        let lowered = lowercase(s);
        Provider::from_lowercase(lowered.as_str())
    }

    /// The provider's display name.
    pub fn label(&self) -> (r: &'static str)
        ensures
            r@ == match self {
                Provider::HiAnime => "HiAnime"@,
                Provider::AnimeKai => "AnimeKai"@,
                Provider::AnimePahe => "AnimePahe"@,
            },
    {
        match self {
            Provider::HiAnime => "HiAnime",
            Provider::AnimeKai => "AnimeKai",
            Provider::AnimePahe => "AnimePahe",
        }
    }
}

/// How a server delivers its subtitles or audio.
#[derive(Debug, PartialEq, Eq, Structural, Clone, Copy)]
pub enum Locale {
    HardSub,
    SoftSub,
    Dub,
    Raw,
}

impl Default for Locale {
    fn default() -> (r: Locale)
        ensures
            r == Locale::HardSub,
    {
        Locale::HardSub
    }
}

impl Locale {
    /// The locale's display name.
    pub open spec fn label_spec(&self) -> Seq<char> {
        match self {
            Locale::HardSub => "HardSub"@,
            Locale::SoftSub => "SoftSub"@,
            Locale::Dub => "Dub"@,
            Locale::Raw => "Raw"@,
        }
    }

    /// The locale's display name.
    pub fn label(&self) -> (r: &'static str)
        ensures
            r@ == self.label_spec(),
    {
        match self {
            Locale::HardSub => "HardSub",
            Locale::SoftSub => "SoftSub",
            Locale::Dub => "Dub",
            Locale::Raw => "Raw",
        }
    }
}

/// A title found by a search.
#[derive(Debug, Clone)]
pub struct SearchResult {
    pub title: String,
    pub poster: String,
    pub id: String,
}

/// One episode of a title.
#[derive(Debug)]
pub struct Episode {
    pub title: String,
    pub number: u32,
    pub id: String,
}

/// A server that streams an episode.
#[derive(Debug)]
pub struct Server {
    pub name: String,
    pub locale: Locale,
    pub url: String,
}

/// A playable stream and its subtitle tracks.
#[derive(Debug)]
pub struct Source {
    pub url: String,
    pub captions: Vec<Caption>,
}

/// A subtitle or thumbnail track.
#[derive(Debug)]
pub struct Caption {
    pub url: String,
    pub label: Option<String>,
    pub kind: String,
}

/// The kind of a skippable segment.
#[derive(Debug, PartialEq, Eq, Structural, Clone, Copy)]
pub enum SkipType {
    Ed,
    Op,
    Recap,
}

} // verus!
