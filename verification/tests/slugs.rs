use quickmark::github_slugger::slug;
use quickmark::github_slugger::Slugger;

#[test]
fn slugger_counts_up_on_collisions() {
    let mut slugger = Slugger::new();
    assert_eq!(slugger.slug("foo"), "foo");
    assert_eq!(slugger.slug("foo"), "foo-1");
    assert_eq!(slugger.slug("bar"), "bar");
    assert_eq!(slugger.slug("foo"), "foo-2");
    slugger.reset();
    assert_eq!(slugger.slug("foo"), "foo");
}

#[test]
fn slug_lowercases_and_dashes() {
    assert_eq!(slug("foo bar baz"), "foo-bar-baz");
    assert_eq!(slug("Alpha Bravo"), "alpha-bravo");
    assert_eq!(slug("a.b!c"), "abc");
}

#[test]
fn free_slug_does_not_track() {
    assert_eq!(slug("foo bar"), "foo-bar");
    assert_eq!(slug("foo bar"), "foo-bar");
}
