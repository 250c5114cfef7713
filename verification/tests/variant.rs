use moget::hls::playlist::{AlternativeMedia, MasterPlaylist, VariantStream};
use moget::hls::variant::{best_variant, find_alternative, select_uris};

fn variant(uri: &str, bandwidth: u64, is_i_frame: bool) -> VariantStream<String> {
    VariantStream { is_i_frame, uri: uri.to_string(), bandwidth, audio: None, video: None }
}

fn alternative(
    group: &str,
    uri: Option<&str>,
    default: bool,
    autoselect: bool,
) -> AlternativeMedia<String> {
    AlternativeMedia {
        uri: uri.map(|uri| uri.to_string()),
        group_id: group.to_string(),
        default,
        autoselect,
    }
}

fn master(
    variants: Vec<VariantStream<String>>,
    alternatives: Vec<AlternativeMedia<String>>,
) -> MasterPlaylist {
    MasterPlaylist { variants, alternatives }
}

fn uris(playlist: &MasterPlaylist) -> Option<Vec<String>> {
    select_uris(playlist, false)
}

fn list(uris: &[&str]) -> Option<Vec<String>> {
    Some(uris.iter().map(|uri| uri.to_string()).collect())
}

#[test]
fn highest_bandwidth_is_best() {
    let playlist = master(
        vec![variant("a", 1, false), variant("b", 3, false), variant("c", 2, false)],
        vec![],
    );
    assert_eq!(best_variant(&playlist, false), Some(1));
    assert_eq!(uris(&playlist), list(&["b"]));
}

#[test]
fn last_of_equal_variants_is_best() {
    let playlist = master(
        vec![variant("a", 3, false), variant("b", 3, false), variant("c", 2, false)],
        vec![],
    );
    assert_eq!(best_variant(&playlist, false), Some(1));
}

#[test]
fn lowest_bandwidth_is_worst() {
    let playlist = master(
        vec![variant("a", 3, false), variant("b", 1, false), variant("c", 2, false)],
        vec![],
    );
    assert_eq!(best_variant(&playlist, true), Some(1));
    assert_eq!(select_uris(&playlist, true), list(&["b"]));
}

#[test]
fn first_of_equal_variants_is_worst() {
    let playlist = master(
        vec![variant("a", 3, false), variant("b", 2, false), variant("c", 2, false)],
        vec![],
    );
    assert_eq!(best_variant(&playlist, true), Some(1));
}

#[test]
fn variants_of_still_pictures_are_not_the_worst() {
    let playlist = master(vec![variant("a", 1, true), variant("b", 9, false)], vec![]);
    assert_eq!(best_variant(&playlist, true), Some(1));
    assert_eq!(best_variant(&master(vec![variant("a", 1, true)], vec![]), true), None);
    assert_eq!(select_uris(&master(vec![], vec![]), true), None);
}

#[test]
fn worst_variant_has_alternatives_too() {
    let mut low = variant("low", 1, false);
    low.audio = Some("a".to_string());
    let playlist = master(
        vec![low, variant("high", 2, false)],
        vec![alternative("a", Some("sound"), false, false)],
    );
    assert_eq!(select_uris(&playlist, true), list(&["sound", "low"]));
    assert_eq!(select_uris(&playlist, false), list(&["high"]));
}

#[test]
fn variants_of_still_pictures_do_not_count() {
    let playlist = master(vec![variant("a", 1, false), variant("b", 9, true)], vec![]);
    assert_eq!(uris(&playlist), list(&["a"]));
    let playlist = master(vec![variant("b", 9, true)], vec![]);
    assert_eq!(best_variant(&playlist, false), None);
    assert_eq!(uris(&playlist), None);
    assert_eq!(uris(&master(vec![], vec![])), None);
}

#[test]
fn default_goes_before_autoselect() {
    let found = |alternatives| {
        let playlist = master(vec![], alternatives);
        find_alternative(&playlist, "g").map(|alt| alt.uri.clone().unwrap())
    };
    let plain = || alternative("g", Some("plain"), false, false);
    let auto = || alternative("g", Some("auto"), false, true);
    let default = || alternative("g", Some("default"), true, false);
    let other = || alternative("h", Some("other"), true, true);
    assert_eq!(found(vec![other(), plain(), auto(), default()]), Some("default".to_string()));
    assert_eq!(found(vec![other(), plain(), auto()]), Some("auto".to_string()));
    assert_eq!(found(vec![other(), plain()]), Some("plain".to_string()));
    assert_eq!(found(vec![other()]), None);
}

#[test]
fn first_of_equal_alternatives_is_taken() {
    let playlist = master(
        vec![],
        vec![alternative("g", Some("1"), true, false), alternative("g", Some("2"), true, false)],
    );
    assert_eq!(find_alternative(&playlist, "g").unwrap().uri, Some("1".to_string()));
}

fn with_groups(video: Option<&str>, audio: Option<&str>) -> MasterPlaylist {
    let mut best = variant("main", 1, false);
    best.video = video.map(|name| name.to_string());
    best.audio = audio.map(|name| name.to_string());
    master(
        vec![best],
        vec![
            alternative("v", Some("picture"), false, false),
            alternative("a", Some("sound"), false, false),
            alternative("n", None, false, false),
        ],
    )
}

#[test]
fn alternatives_replace_the_variant_only_together() {
    assert_eq!(uris(&with_groups(Some("v"), Some("a"))), list(&["picture", "sound"]));
    assert_eq!(uris(&with_groups(None, Some("a"))), list(&["sound", "main"]));
    assert_eq!(uris(&with_groups(Some("v"), None)), list(&["picture", "main"]));
    assert_eq!(uris(&with_groups(None, None)), list(&["main"]));
}

#[test]
fn alternatives_without_uri_do_not_count() {
    assert_eq!(uris(&with_groups(Some("n"), Some("a"))), list(&["sound", "main"]));
    assert_eq!(uris(&with_groups(Some("n"), Some("missing"))), list(&["main"]));
}
