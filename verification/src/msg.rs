//! The notification vocabulary: why a feed changed (`Reason`), what kind of
//! feed it is (`Medium`), and the notification itself (`Ping`).
//!
//! Both enums have a canonical lower-case textual form, decoded without
//! regard to ASCII case; unrecognised text falls back to `Update` and
//! `Podcast`.  On the wire they travel as small ordinals.

use vstd::prelude::*;
use vstd::string::StringExecFns;
use crate::text::{
    eq_fold, eq_ignore_ascii_case, fold_char, is_folded, lemma_eq_fold_transitive, lemma_ne_fold,
};

verus! {

/// Why a feed is being announced.
#[derive(Clone, Copy, PartialEq, Eq, Structural, Debug)]
pub enum Reason {
    Update,
    Live,
    LiveEnd,
    NewIRI,
}

/// What kind of feed is being announced.  The `L` variants are the live
/// counterparts of the plain ones.
#[derive(Clone, Copy, PartialEq, Eq, Structural, Debug)]
pub enum Medium {
    Podcast,
    PodcastL,
    Music,
    MusicL,
    Video,
    VideoL,
    Film,
    FilmL,
    Audiobook,
    AudiobookL,
    Newsletter,
    NewsletterL,
    Blog,
    BlogL,
    Publisher,
    PublisherL,
    Course,
    CourseL,
}

impl Reason {
    /// The wire ordinal of this reason.
    pub open spec fn spec_ordinal(self) -> u16 {
        match self {
            Reason::Update => 0,
            Reason::Live => 1,
            Reason::LiveEnd => 2,
            Reason::NewIRI => 3,
        }
    }

    /// The canonical lower-case text of this reason.
    pub open spec fn spec_text(self) -> Seq<char> {
        match self {
            Reason::Update => "update"@,
            Reason::Live => "live"@,
            Reason::LiveEnd => "liveend"@,
            Reason::NewIRI => "newiri"@,
        }
    }

    pub fn to_u16(self) -> (r: u16)
        ensures
            r == self.spec_ordinal(),
    {
        match self {
            Reason::Update => 0,
            Reason::Live => 1,
            Reason::LiveEnd => 2,
            Reason::NewIRI => 3,
        }
    }

    /// The reason a wire ordinal names, if any.
    pub fn from_u16(v: u16) -> (r: Option<Reason>)
        ensures
            r == spec_reason_from_u16(v),
    {
        match v {
            0 => Some(Reason::Update),
            1 => Some(Reason::Live),
            2 => Some(Reason::LiveEnd),
            3 => Some(Reason::NewIRI),
            _ => None,
        }
    }

    /// The canonical text, as a fresh string.
    pub fn to_text(self) -> (r: String)
        ensures
            r@ == self.spec_text(),
    {
        match self {
            Reason::Update => String::from_str("update"),
            Reason::Live => String::from_str("live"),
            Reason::LiveEnd => String::from_str("liveend"),
            Reason::NewIRI => String::from_str("newiri"),
        }
    }

    /// Decodes a textual reason, without regard to ASCII case; unrecognised
    /// text maps to `Update`.
    pub fn from_text(s: &str) -> (r: Reason)
        ensures
            r == spec_parse_reason(s@),
    {
        if eq_ignore_ascii_case(s, "live") {
            Reason::Live
        } else if eq_ignore_ascii_case(s, "liveend") {
            Reason::LiveEnd
        } else if eq_ignore_ascii_case(s, "newiri") {
            Reason::NewIRI
        } else {
            Reason::Update
        }
    }
}

pub open spec fn spec_reason_from_u16(v: u16) -> Option<Reason> {
    if v == 0 {
        Some(Reason::Update)
    } else if v == 1 {
        Some(Reason::Live)
    } else if v == 2 {
        Some(Reason::LiveEnd)
    } else if v == 3 {
        Some(Reason::NewIRI)
    } else {
        None
    }
}

/// The reason named by a piece of text, compared without regard to ASCII
/// case; unrecognised text maps to `Update`.
pub open spec fn spec_parse_reason(s: Seq<char>) -> Reason {
    if eq_fold(s, "live"@) {
        Reason::Live
    } else if eq_fold(s, "liveend"@) {
        Reason::LiveEnd
    } else if eq_fold(s, "newiri"@) {
        Reason::NewIRI
    } else {
        Reason::Update
    }
}

impl Medium {
    /// The wire ordinal of this medium.
    pub open spec fn spec_ordinal(self) -> u16 {
        match self {
            Medium::Podcast => 0,
            Medium::PodcastL => 1,
            Medium::Music => 2,
            Medium::MusicL => 3,
            Medium::Video => 4,
            Medium::VideoL => 5,
            Medium::Film => 6,
            Medium::FilmL => 7,
            Medium::Audiobook => 8,
            Medium::AudiobookL => 9,
            Medium::Newsletter => 10,
            Medium::NewsletterL => 11,
            Medium::Blog => 12,
            Medium::BlogL => 13,
            Medium::Publisher => 14,
            Medium::PublisherL => 15,
            Medium::Course => 16,
            Medium::CourseL => 17,
        }
    }

    /// The canonical lower-case text of this medium.
    pub open spec fn spec_text(self) -> Seq<char> {
        match self {
            Medium::Podcast => "podcast"@,
            Medium::PodcastL => "podcastl"@,
            Medium::Music => "music"@,
            Medium::MusicL => "musicl"@,
            Medium::Video => "video"@,
            Medium::VideoL => "videol"@,
            Medium::Film => "film"@,
            Medium::FilmL => "filml"@,
            Medium::Audiobook => "audiobook"@,
            Medium::AudiobookL => "audiobookl"@,
            Medium::Newsletter => "newsletter"@,
            Medium::NewsletterL => "newsletterl"@,
            Medium::Blog => "blog"@,
            Medium::BlogL => "blogl"@,
            Medium::Publisher => "publisher"@,
            Medium::PublisherL => "publisherl"@,
            Medium::Course => "course"@,
            Medium::CourseL => "coursel"@,
        }
    }

    pub fn to_u16(self) -> (r: u16)
        ensures
            r == self.spec_ordinal(),
    {
        match self {
            Medium::Podcast => 0,
            Medium::PodcastL => 1,
            Medium::Music => 2,
            Medium::MusicL => 3,
            Medium::Video => 4,
            Medium::VideoL => 5,
            Medium::Film => 6,
            Medium::FilmL => 7,
            Medium::Audiobook => 8,
            Medium::AudiobookL => 9,
            Medium::Newsletter => 10,
            Medium::NewsletterL => 11,
            Medium::Blog => 12,
            Medium::BlogL => 13,
            Medium::Publisher => 14,
            Medium::PublisherL => 15,
            Medium::Course => 16,
            Medium::CourseL => 17,
        }
    }

    /// The medium a wire ordinal names, if any.
    pub fn from_u16(v: u16) -> (r: Option<Medium>)
        ensures
            r == spec_medium_from_u16(v),
    {
        match v {
            0 => Some(Medium::Podcast),
            1 => Some(Medium::PodcastL),
            2 => Some(Medium::Music),
            3 => Some(Medium::MusicL),
            4 => Some(Medium::Video),
            5 => Some(Medium::VideoL),
            6 => Some(Medium::Film),
            7 => Some(Medium::FilmL),
            8 => Some(Medium::Audiobook),
            9 => Some(Medium::AudiobookL),
            10 => Some(Medium::Newsletter),
            11 => Some(Medium::NewsletterL),
            12 => Some(Medium::Blog),
            13 => Some(Medium::BlogL),
            14 => Some(Medium::Publisher),
            15 => Some(Medium::PublisherL),
            16 => Some(Medium::Course),
            17 => Some(Medium::CourseL),
            _ => None,
        }
    }

    /// The canonical text, as a fresh string.
    pub fn to_text(self) -> (r: String)
        ensures
            r@ == self.spec_text(),
    {
        match self {
            Medium::Podcast => String::from_str("podcast"),
            Medium::PodcastL => String::from_str("podcastl"),
            Medium::Music => String::from_str("music"),
            Medium::MusicL => String::from_str("musicl"),
            Medium::Video => String::from_str("video"),
            Medium::VideoL => String::from_str("videol"),
            Medium::Film => String::from_str("film"),
            Medium::FilmL => String::from_str("filml"),
            Medium::Audiobook => String::from_str("audiobook"),
            Medium::AudiobookL => String::from_str("audiobookl"),
            Medium::Newsletter => String::from_str("newsletter"),
            Medium::NewsletterL => String::from_str("newsletterl"),
            Medium::Blog => String::from_str("blog"),
            Medium::BlogL => String::from_str("blogl"),
            Medium::Publisher => String::from_str("publisher"),
            Medium::PublisherL => String::from_str("publisherl"),
            Medium::Course => String::from_str("course"),
            Medium::CourseL => String::from_str("coursel"),
        }
    }

    /// Decodes a textual medium, without regard to ASCII case; unrecognised
    /// text maps to `Podcast`.
    pub fn from_text(s: &str) -> (r: Medium)
        ensures
            r == spec_parse_medium(s@),
    {
        if eq_ignore_ascii_case(s, "podcastl") {
            Medium::PodcastL
        } else if eq_ignore_ascii_case(s, "music") {
            Medium::Music
        } else if eq_ignore_ascii_case(s, "musicl") {
            Medium::MusicL
        } else if eq_ignore_ascii_case(s, "video") {
            Medium::Video
        } else if eq_ignore_ascii_case(s, "videol") {
            Medium::VideoL
        } else if eq_ignore_ascii_case(s, "film") {
            Medium::Film
        } else if eq_ignore_ascii_case(s, "filml") {
            Medium::FilmL
        } else if eq_ignore_ascii_case(s, "audiobook") {
            Medium::Audiobook
        } else if eq_ignore_ascii_case(s, "audiobookl") {
            Medium::AudiobookL
        } else if eq_ignore_ascii_case(s, "newsletter") {
            Medium::Newsletter
        } else if eq_ignore_ascii_case(s, "newsletterl") {
            Medium::NewsletterL
        } else if eq_ignore_ascii_case(s, "blog") {
            Medium::Blog
        } else if eq_ignore_ascii_case(s, "blogl") {
            Medium::BlogL
        } else if eq_ignore_ascii_case(s, "publisher") {
            Medium::Publisher
        } else if eq_ignore_ascii_case(s, "publisherl") {
            Medium::PublisherL
        } else if eq_ignore_ascii_case(s, "course") {
            Medium::Course
        } else if eq_ignore_ascii_case(s, "coursel") {
            Medium::CourseL
        } else {
            Medium::Podcast
        }
    }
}

pub open spec fn spec_medium_from_u16(v: u16) -> Option<Medium> {
    if v == 0 {
        Some(Medium::Podcast)
    } else if v == 1 {
        Some(Medium::PodcastL)
    } else if v == 2 {
        Some(Medium::Music)
    } else if v == 3 {
        Some(Medium::MusicL)
    } else if v == 4 {
        Some(Medium::Video)
    } else if v == 5 {
        Some(Medium::VideoL)
    } else if v == 6 {
        Some(Medium::Film)
    } else if v == 7 {
        Some(Medium::FilmL)
    } else if v == 8 {
        Some(Medium::Audiobook)
    } else if v == 9 {
        Some(Medium::AudiobookL)
    } else if v == 10 {
        Some(Medium::Newsletter)
    } else if v == 11 {
        Some(Medium::NewsletterL)
    } else if v == 12 {
        Some(Medium::Blog)
    } else if v == 13 {
        Some(Medium::BlogL)
    } else if v == 14 {
        Some(Medium::Publisher)
    } else if v == 15 {
        Some(Medium::PublisherL)
    } else if v == 16 {
        Some(Medium::Course)
    } else if v == 17 {
        Some(Medium::CourseL)
    } else {
        None
    }
}

/// The medium named by a piece of text, compared without regard to ASCII
/// case; unrecognised text maps to `Podcast`.
pub open spec fn spec_parse_medium(s: Seq<char>) -> Medium {
    if eq_fold(s, "podcastl"@) {
        Medium::PodcastL
    } else if eq_fold(s, "music"@) {
        Medium::Music
    } else if eq_fold(s, "musicl"@) {
        Medium::MusicL
    } else if eq_fold(s, "video"@) {
        Medium::Video
    } else if eq_fold(s, "videol"@) {
        Medium::VideoL
    } else if eq_fold(s, "film"@) {
        Medium::Film
    } else if eq_fold(s, "filml"@) {
        Medium::FilmL
    } else if eq_fold(s, "audiobook"@) {
        Medium::Audiobook
    } else if eq_fold(s, "audiobookl"@) {
        Medium::AudiobookL
    } else if eq_fold(s, "newsletter"@) {
        Medium::Newsletter
    } else if eq_fold(s, "newsletterl"@) {
        Medium::NewsletterL
    } else if eq_fold(s, "blog"@) {
        Medium::Blog
    } else if eq_fold(s, "blogl"@) {
        Medium::BlogL
    } else if eq_fold(s, "publisher"@) {
        Medium::Publisher
    } else if eq_fold(s, "publisherl"@) {
        Medium::PublisherL
    } else if eq_fold(s, "course"@) {
        Medium::Course
    } else if eq_fold(s, "coursel"@) {
        Medium::CourseL
    } else {
        Medium::Podcast
    }
}

/// One notification: a feed URL, when it was received, and why and for what
/// kind of feed it is announced.
#[derive(Clone, Debug)]
pub struct Ping {
    pub url: String,
    pub time: u64,
    pub reason: Reason,
    pub medium: Medium,
}

/// The mathematical shape of a `Ping`.
pub ghost struct PingModel {
    pub url: Seq<char>,
    pub time: u64,
    pub reason: Reason,
    pub medium: Medium,
}

impl View for Ping {
    type V = PingModel;

    open spec fn view(&self) -> PingModel {
        PingModel { url: self.url@, time: self.time, reason: self.reason, medium: self.medium }
    }
}

/// Text decoding of reasons ignores ASCII case: text equal up to case decodes
/// to the same reason.
pub proof fn lemma_reason_decode_case_insensitive(a: Seq<char>, b: Seq<char>)
    requires
        eq_fold(a, b),
    ensures
        spec_parse_reason(a) == spec_parse_reason(b),
{
    lemma_eq_fold_helper(a, b, "live"@);
    lemma_eq_fold_helper(a, b, "liveend"@);
    lemma_eq_fold_helper(a, b, "newiri"@);
}

/// Text decoding of mediums ignores ASCII case: text equal up to case decodes
/// to the same medium.
pub proof fn lemma_medium_decode_case_insensitive(a: Seq<char>, b: Seq<char>)
    requires
        eq_fold(a, b),
    ensures
        spec_parse_medium(a) == spec_parse_medium(b),
{
    lemma_eq_fold_helper(a, b, "podcastl"@);
    lemma_eq_fold_helper(a, b, "music"@);
    lemma_eq_fold_helper(a, b, "musicl"@);
    lemma_eq_fold_helper(a, b, "video"@);
    lemma_eq_fold_helper(a, b, "videol"@);
    lemma_eq_fold_helper(a, b, "film"@);
    lemma_eq_fold_helper(a, b, "filml"@);
    lemma_eq_fold_helper(a, b, "audiobook"@);
    lemma_eq_fold_helper(a, b, "audiobookl"@);
    lemma_eq_fold_helper(a, b, "newsletter"@);
    lemma_eq_fold_helper(a, b, "newsletterl"@);
    lemma_eq_fold_helper(a, b, "blog"@);
    lemma_eq_fold_helper(a, b, "blogl"@);
    lemma_eq_fold_helper(a, b, "publisher"@);
    lemma_eq_fold_helper(a, b, "publisherl"@);
    lemma_eq_fold_helper(a, b, "course"@);
    lemma_eq_fold_helper(a, b, "coursel"@);
}

proof fn lemma_eq_fold_helper(a: Seq<char>, b: Seq<char>, lit: Seq<char>)
    requires
        eq_fold(a, b),
    ensures
        eq_fold(a, lit) == eq_fold(b, lit),
{
    if eq_fold(a, lit) {
        lemma_eq_fold_transitive(b, a, lit);
    }
    if eq_fold(b, lit) {
        lemma_eq_fold_transitive(a, b, lit);
    }
}

/// The canonical text of a reason is lower case, and decodes back to the
/// same reason.
pub proof fn lemma_reason_text_round_trip(r: Reason)
    ensures
        is_folded(r.spec_text()),
        spec_parse_reason(r.spec_text()) == r,
{
    reveal_strlit("update");
    reveal_strlit("live");
    reveal_strlit("liveend");
    reveal_strlit("newiri");
    reveal_with_fuel(is_folded, 8);
    match r {
        Reason::Update => {
            lemma_ne_fold("update"@, "live"@);
            lemma_ne_fold("update"@, "liveend"@);
            assert(fold_char("update"@[0]) == 117);
            assert(fold_char("newiri"@[0]) == 110);
            lemma_ne_fold("update"@, "newiri"@);
        },
        Reason::Live => {
        },
        Reason::LiveEnd => {
            lemma_ne_fold("liveend"@, "live"@);
        },
        Reason::NewIRI => {
            lemma_ne_fold("newiri"@, "live"@);
            lemma_ne_fold("newiri"@, "liveend"@);
        },
    }
}

/// The canonical text of a medium is lower case, and decodes back to the
/// same medium.
pub proof fn lemma_medium_text_round_trip(m: Medium)
    ensures
        is_folded(m.spec_text()),
        spec_parse_medium(m.spec_text()) == m,
{
    reveal_strlit("podcast");
    reveal_strlit("podcastl");
    reveal_strlit("music");
    reveal_strlit("musicl");
    reveal_strlit("video");
    reveal_strlit("videol");
    reveal_strlit("film");
    reveal_strlit("filml");
    reveal_strlit("audiobook");
    reveal_strlit("audiobookl");
    reveal_strlit("newsletter");
    reveal_strlit("newsletterl");
    reveal_strlit("blog");
    reveal_strlit("blogl");
    reveal_strlit("publisher");
    reveal_strlit("publisherl");
    reveal_strlit("course");
    reveal_strlit("coursel");
    reveal_with_fuel(is_folded, 12);
    let t = m.spec_text();
    match m {
        Medium::Podcast => {
            lemma_ne_fold(t, "podcastl"@);
            lemma_ne_fold(t, "music"@);
            lemma_ne_fold(t, "musicl"@);
            lemma_ne_fold(t, "video"@);
            lemma_ne_fold(t, "videol"@);
            lemma_ne_fold(t, "film"@);
            lemma_ne_fold(t, "filml"@);
            lemma_ne_fold(t, "audiobook"@);
            lemma_ne_fold(t, "audiobookl"@);
            lemma_ne_fold(t, "newsletter"@);
            lemma_ne_fold(t, "newsletterl"@);
            lemma_ne_fold(t, "blog"@);
            lemma_ne_fold(t, "blogl"@);
            lemma_ne_fold(t, "publisher"@);
            lemma_ne_fold(t, "publisherl"@);
            lemma_ne_fold(t, "course"@);
            assert(fold_char(t[0]) == 112 && fold_char("coursel"@[0]) == 99);
            lemma_ne_fold(t, "coursel"@);
        },
        Medium::PodcastL => {
        },
        Medium::Music => {
            lemma_ne_fold(t, "podcastl"@);
        },
        Medium::MusicL => {
            lemma_ne_fold(t, "podcastl"@);
            lemma_ne_fold(t, "music"@);
        },
        Medium::Video => {
            lemma_ne_fold(t, "podcastl"@);
            assert(fold_char(t[0]) == 118 && fold_char("music"@[0]) == 109);
            lemma_ne_fold(t, "music"@);
            lemma_ne_fold(t, "musicl"@);
        },
        Medium::VideoL => {
            lemma_ne_fold(t, "podcastl"@);
            lemma_ne_fold(t, "music"@);
            assert(fold_char(t[0]) == 118 && fold_char("musicl"@[0]) == 109);
            lemma_ne_fold(t, "musicl"@);
            lemma_ne_fold(t, "video"@);
        },
        Medium::Film => {
            lemma_ne_fold(t, "podcastl"@);
            lemma_ne_fold(t, "music"@);
            lemma_ne_fold(t, "musicl"@);
            lemma_ne_fold(t, "video"@);
            lemma_ne_fold(t, "videol"@);
        },
        Medium::FilmL => {
            lemma_ne_fold(t, "podcastl"@);
            assert(fold_char(t[0]) == 102 && fold_char("music"@[0]) == 109 && fold_char(
                "video"@[0],
            ) == 118);
            lemma_ne_fold(t, "music"@);
            lemma_ne_fold(t, "musicl"@);
            lemma_ne_fold(t, "video"@);
            lemma_ne_fold(t, "videol"@);
            lemma_ne_fold(t, "film"@);
        },
        Medium::Audiobook => {
            lemma_ne_fold(t, "podcastl"@);
            lemma_ne_fold(t, "music"@);
            lemma_ne_fold(t, "musicl"@);
            lemma_ne_fold(t, "video"@);
            lemma_ne_fold(t, "videol"@);
            lemma_ne_fold(t, "film"@);
            lemma_ne_fold(t, "filml"@);
        },
        Medium::AudiobookL => {
            lemma_ne_fold(t, "podcastl"@);
            lemma_ne_fold(t, "music"@);
            lemma_ne_fold(t, "musicl"@);
            lemma_ne_fold(t, "video"@);
            lemma_ne_fold(t, "videol"@);
            lemma_ne_fold(t, "film"@);
            lemma_ne_fold(t, "filml"@);
            lemma_ne_fold(t, "audiobook"@);
        },
        Medium::Newsletter => {
            lemma_ne_fold(t, "podcastl"@);
            lemma_ne_fold(t, "music"@);
            lemma_ne_fold(t, "musicl"@);
            lemma_ne_fold(t, "video"@);
            lemma_ne_fold(t, "videol"@);
            lemma_ne_fold(t, "film"@);
            lemma_ne_fold(t, "filml"@);
            lemma_ne_fold(t, "audiobook"@);
            assert(fold_char(t[0]) == 110 && fold_char("audiobookl"@[0]) == 97);
            lemma_ne_fold(t, "audiobookl"@);
        },
        Medium::NewsletterL => {
            lemma_ne_fold(t, "podcastl"@);
            lemma_ne_fold(t, "music"@);
            lemma_ne_fold(t, "musicl"@);
            lemma_ne_fold(t, "video"@);
            lemma_ne_fold(t, "videol"@);
            lemma_ne_fold(t, "film"@);
            lemma_ne_fold(t, "filml"@);
            lemma_ne_fold(t, "audiobook"@);
            lemma_ne_fold(t, "audiobookl"@);
            lemma_ne_fold(t, "newsletter"@);
        },
        Medium::Blog => {
            lemma_ne_fold(t, "podcastl"@);
            lemma_ne_fold(t, "music"@);
            lemma_ne_fold(t, "musicl"@);
            lemma_ne_fold(t, "video"@);
            lemma_ne_fold(t, "videol"@);
            assert(fold_char(t[0]) == 98 && fold_char("film"@[0]) == 102);
            lemma_ne_fold(t, "film"@);
            lemma_ne_fold(t, "filml"@);
            lemma_ne_fold(t, "audiobook"@);
            lemma_ne_fold(t, "audiobookl"@);
            lemma_ne_fold(t, "newsletter"@);
            lemma_ne_fold(t, "newsletterl"@);
        },
        Medium::BlogL => {
            lemma_ne_fold(t, "podcastl"@);
            assert(fold_char(t[0]) == 98 && fold_char("music"@[0]) == 109 && fold_char(
                "video"@[0],
            ) == 118 && fold_char("filml"@[0]) == 102);
            lemma_ne_fold(t, "music"@);
            lemma_ne_fold(t, "musicl"@);
            lemma_ne_fold(t, "video"@);
            lemma_ne_fold(t, "videol"@);
            lemma_ne_fold(t, "film"@);
            lemma_ne_fold(t, "filml"@);
            lemma_ne_fold(t, "audiobook"@);
            lemma_ne_fold(t, "audiobookl"@);
            lemma_ne_fold(t, "newsletter"@);
            lemma_ne_fold(t, "newsletterl"@);
            lemma_ne_fold(t, "blog"@);
        },
        Medium::Publisher => {
            lemma_ne_fold(t, "podcastl"@);
            lemma_ne_fold(t, "music"@);
            lemma_ne_fold(t, "musicl"@);
            lemma_ne_fold(t, "video"@);
            lemma_ne_fold(t, "videol"@);
            lemma_ne_fold(t, "film"@);
            lemma_ne_fold(t, "filml"@);
            assert(fold_char(t[0]) == 112 && fold_char("audiobook"@[0]) == 97);
            lemma_ne_fold(t, "audiobook"@);
            lemma_ne_fold(t, "audiobookl"@);
            lemma_ne_fold(t, "newsletter"@);
            lemma_ne_fold(t, "newsletterl"@);
            lemma_ne_fold(t, "blog"@);
            lemma_ne_fold(t, "blogl"@);
        },
        Medium::PublisherL => {
            lemma_ne_fold(t, "podcastl"@);
            lemma_ne_fold(t, "music"@);
            lemma_ne_fold(t, "musicl"@);
            lemma_ne_fold(t, "video"@);
            lemma_ne_fold(t, "videol"@);
            lemma_ne_fold(t, "film"@);
            lemma_ne_fold(t, "filml"@);
            lemma_ne_fold(t, "audiobook"@);
            assert(fold_char(t[0]) == 112 && fold_char("audiobookl"@[0]) == 97 && fold_char(
                "newsletter"@[0],
            ) == 110);
            lemma_ne_fold(t, "audiobookl"@);
            lemma_ne_fold(t, "newsletter"@);
            lemma_ne_fold(t, "newsletterl"@);
            lemma_ne_fold(t, "blog"@);
            lemma_ne_fold(t, "blogl"@);
            lemma_ne_fold(t, "publisher"@);
        },
        Medium::Course => {
            lemma_ne_fold(t, "podcastl"@);
            lemma_ne_fold(t, "music"@);
            assert(fold_char(t[0]) == 99 && fold_char("musicl"@[0]) == 109 && fold_char(
                "videol"@[0],
            ) == 118);
            lemma_ne_fold(t, "musicl"@);
            lemma_ne_fold(t, "video"@);
            lemma_ne_fold(t, "videol"@);
            lemma_ne_fold(t, "film"@);
            lemma_ne_fold(t, "filml"@);
            lemma_ne_fold(t, "audiobook"@);
            lemma_ne_fold(t, "audiobookl"@);
            lemma_ne_fold(t, "newsletter"@);
            lemma_ne_fold(t, "newsletterl"@);
            lemma_ne_fold(t, "blog"@);
            lemma_ne_fold(t, "blogl"@);
            lemma_ne_fold(t, "publisher"@);
            lemma_ne_fold(t, "publisherl"@);
        },
        Medium::CourseL => {
            lemma_ne_fold(t, "podcastl"@);
            lemma_ne_fold(t, "music"@);
            lemma_ne_fold(t, "musicl"@);
            lemma_ne_fold(t, "video"@);
            lemma_ne_fold(t, "videol"@);
            lemma_ne_fold(t, "film"@);
            lemma_ne_fold(t, "filml"@);
            lemma_ne_fold(t, "audiobook"@);
            lemma_ne_fold(t, "audiobookl"@);
            lemma_ne_fold(t, "newsletter"@);
            lemma_ne_fold(t, "newsletterl"@);
            lemma_ne_fold(t, "blog"@);
            lemma_ne_fold(t, "blogl"@);
            lemma_ne_fold(t, "publisher"@);
            lemma_ne_fold(t, "publisherl"@);
            lemma_ne_fold(t, "course"@);
        },
    }
}

} // verus!
