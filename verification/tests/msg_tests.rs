use podping::msg::{Medium, Reason};

#[test]
fn reason_text_is_canonical_lower_case() {
    assert_eq!(Reason::Update.to_text().as_str(), "update");
    assert_eq!(Reason::Live.to_text().as_str(), "live");
    assert_eq!(Reason::LiveEnd.to_text().as_str(), "liveend");
    assert_eq!(Reason::NewIRI.to_text().as_str(), "newiri");
}

#[test]
fn reason_decode_ignores_ascii_case() {
    assert_eq!(Reason::from_text("LIVE"), Reason::Live);
    assert_eq!(Reason::from_text("liveEnd"), Reason::LiveEnd);
    assert_eq!(Reason::from_text("LiveEnd"), Reason::LiveEnd);
    assert_eq!(Reason::from_text("NewIRI"), Reason::NewIRI);
    assert_eq!(Reason::from_text("update"), Reason::Update);
}

#[test]
fn unknown_reason_decodes_to_update() {
    assert_eq!(Reason::from_text("sometext"), Reason::Update);
    assert_eq!(Reason::from_text(""), Reason::Update);
}

#[test]
fn reason_text_round_trips() {
    for r in [Reason::Update, Reason::Live, Reason::LiveEnd, Reason::NewIRI] {
        assert_eq!(Reason::from_text(r.to_text().as_str()), r);
    }
}

#[test]
fn reason_ordinals_are_fixed() {
    assert_eq!(Reason::Update.to_u16(), 0);
    assert_eq!(Reason::Live.to_u16(), 1);
    assert_eq!(Reason::LiveEnd.to_u16(), 2);
    assert_eq!(Reason::NewIRI.to_u16(), 3);
    assert_eq!(Reason::from_u16(2), Some(Reason::LiveEnd));
    assert_eq!(Reason::from_u16(4), None);
}

#[test]
fn medium_text_is_canonical_lower_case() {
    assert_eq!(Medium::Podcast.to_text().as_str(), "podcast");
    assert_eq!(Medium::VideoL.to_text().as_str(), "videol");
    assert_eq!(Medium::CourseL.to_text().as_str(), "coursel");
}

#[test]
fn medium_decode_ignores_ascii_case() {
    assert_eq!(Medium::from_text("VideoL"), Medium::VideoL);
    assert_eq!(Medium::from_text("MUSIC"), Medium::Music);
    assert_eq!(Medium::from_text("publisherL"), Medium::PublisherL);
}

#[test]
fn unknown_medium_decodes_to_podcast() {
    assert_eq!(Medium::from_text("tape"), Medium::Podcast);
    assert_eq!(Medium::from_text(""), Medium::Podcast);
}

#[test]
fn medium_text_round_trips() {
    let all = [
        Medium::Podcast,
        Medium::PodcastL,
        Medium::Music,
        Medium::MusicL,
        Medium::Video,
        Medium::VideoL,
        Medium::Film,
        Medium::FilmL,
        Medium::Audiobook,
        Medium::AudiobookL,
        Medium::Newsletter,
        Medium::NewsletterL,
        Medium::Blog,
        Medium::BlogL,
        Medium::Publisher,
        Medium::PublisherL,
        Medium::Course,
        Medium::CourseL,
    ];
    for (i, m) in all.iter().enumerate() {
        assert_eq!(Medium::from_text(m.to_text().as_str()), *m);
        assert_eq!(m.to_u16() as usize, i);
        assert_eq!(Medium::from_u16(m.to_u16()), Some(*m));
    }
    assert_eq!(Medium::from_u16(18), None);
}
