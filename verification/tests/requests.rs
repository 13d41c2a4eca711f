use sebastian_core::ariel::map::ArielSitemap;
use sebastian_core::ariel::mware::{
    download_path, forward_target, login_form, next_playlist_step, parse_u64_exec, search_form,
    size_from_content_length, PlaylistStep,
};
use sebastian_core::ariel::page::{ArielPage, ArielPageData, ArielPageDataKind};
use sebastian_core::ariel::{children_plan, ArielUserConfig, ChildrenPlan, Crawl};

#[test]
fn sitemap_points_at_ariel() {
    let m = ArielSitemap::default();
    assert_eq!(
        m.login_url,
        "https://elearning.unimi.it/authentication/skin/portaleariel/login.aspx?url=https://ariel.unimi.it/"
    );
    assert_eq!(m.search_url, "https://ariel.unimi.it/offerta/search/quick");
    assert_eq!(m.home_page_url, "https://ariel.unimi.it/");
}

#[test]
fn forms_carry_the_fields_ariel_expects() {
    let c = ArielUserConfig { username: "mario.rossi@studenti.unimi.it".to_string(), password: "pw".to_string() };
    assert_eq!(
        login_form(&c),
        vec![
            ("hdnSilent".to_string(), "true".to_string()),
            ("tbLogin".to_string(), "mario.rossi@studenti.unimi.it".to_string()),
            ("tbPassword".to_string(), "pw".to_string()),
        ]
    );
    assert_eq!(search_form("algebra"), vec![("keyword".to_string(), "algebra".to_string())]);
}

#[test]
fn forwarding_pages_are_followed_to_v5() {
    let body = r#"<html><head><META HTTP-EQUIV="REFRESH" CONTENT="0; URL=v5"></head></html>"#;
    assert_eq!(
        forward_target("https://c.ariel.ctu.unimi.it/home/", body),
        Ok(Some("https://c.ariel.ctu.unimi.it/home/v5".to_string()))
    );
    assert_eq!(forward_target("https://c.ariel.ctu.unimi.it/home/", "<html></html>"), Ok(None));
    assert_eq!(forward_target("not a url", body), Err(()));
}

#[test]
fn sizes_are_read_from_content_length() {
    assert_eq!(size_from_content_length(Some("1234")), 1234);
    assert_eq!(size_from_content_length(Some("+7")), 7);
    assert_eq!(size_from_content_length(Some("12a")), 0);
    assert_eq!(size_from_content_length(Some("")), 0);
    assert_eq!(size_from_content_length(Some("+")), 0);
    assert_eq!(size_from_content_length(None), 0);
    assert_eq!(parse_u64_exec("18446744073709551615"), Some(u64::MAX));
    assert_eq!(parse_u64_exec("18446744073709551616"), None);
    assert_eq!(parse_u64_exec("-1"), None);
    for s in ["0", "42", "007", "+99", "x", " 1", "99999999999999999999"] {
        assert_eq!(parse_u64_exec(s), s.parse::<u64>().ok(), "{}", s);
    }
}

#[test]
fn downloads_are_saved_by_course_room_and_thread() {
    let d = ArielPageData {
        from_site: "Algebra Lineare".to_string(),
        from_ambient: "Lessons - Slides".to_string(),
        from_thread: "Lesson 1".to_string(),
        name: "slides.pdf".to_string(),
        url: "https://a/File.aspx".to_string(),
        kind: ArielPageDataKind::Generic,
    };
    assert_eq!(
        download_path(&d),
        vec!["algebra_lineare".to_string(), "lessons_slides".to_string(), "lesson_1".to_string(), "slides.pdf".to_string()]
    );
}

#[test]
fn master_playlists_lead_to_their_first_variant() {
    let master = b"#EXTM3U\n#EXT-X-STREAM-INF:BANDWIDTH=1280000\nchunklist_b1.m3u8\n#EXT-X-STREAM-INF:BANDWIDTH=640000\nchunklist_b2.m3u8\n";
    match next_playlist_step("https://v.unimi.it/vod/mp4:x.mp4/playlist.m3u8", master) {
        PlaylistStep::Follow(u) => assert_eq!(u, "https://v.unimi.it/vod/mp4:x.mp4/chunklist_b1.m3u8"),
        _ => panic!("expected a variant to follow"),
    }
}

#[test]
fn media_playlists_give_their_segments() {
    let media = b"#EXTM3U\n#EXT-X-VERSION:3\n#EXT-X-TARGETDURATION:10\n#EXTINF:10.0,\nseg_0.ts\n#EXTINF:10.0,\nseg_1.ts\n#EXT-X-ENDLIST\n";
    match next_playlist_step("https://v.unimi.it/vod/mp4:x.mp4/chunklist.m3u8", media) {
        PlaylistStep::Segments(s) => assert_eq!(
            s,
            vec![
                "https://v.unimi.it/vod/mp4:x.mp4/seg_0.ts".to_string(),
                "https://v.unimi.it/vod/mp4:x.mp4/seg_1.ts".to_string()
            ]
        ),
        _ => panic!("expected segments"),
    }
}

#[test]
fn unreadable_playlists_fail_with_a_message() {
    match next_playlist_step("https://v.unimi.it/x.m3u8", b"not a playlist") {
        PlaylistStep::Fail(m) => assert!(!m.is_empty()),
        _ => panic!("expected a failure"),
    }
}

#[test]
fn a_single_v5_child_is_a_forward() {
    match children_plan("https://c.ariel.ctu.unimi.it/home/", vec!["https://c.ariel.ctu.unimi.it/home/v5".to_string()]) {
        ChildrenPlan::Forward(u) => assert_eq!(u, "https://c.ariel.ctu.unimi.it/home/v5"),
        ChildrenPlan::Each(_) => panic!("expected a forward"),
    }
    match children_plan("https://c/", vec!["https://c/a".to_string()]) {
        ChildrenPlan::Each(v) => assert_eq!(v, vec!["https://c/a".to_string()]),
        ChildrenPlan::Forward(_) => panic!("expected each"),
    }
    match children_plan("https://c/", vec!["https://c/v5".to_string(), "https://c/v5".to_string()]) {
        ChildrenPlan::Each(v) => assert_eq!(v.len(), 2),
        ChildrenPlan::Forward(_) => panic!("expected each"),
    }
}

#[test]
fn the_walk_visits_the_last_page_added_first() {
    let page = |u: &str| ArielPage::from_raw("<html><body></body></html>".to_string(), u.to_string()).unwrap();
    let mut crawl = Crawl::new(vec![], vec![]);
    assert!(crawl.next_page().is_none());
    assert!(crawl.visit(&page("https://a/"), vec![page("https://a/1"), page("https://a/2")]));
    assert_eq!(crawl.next_page().map(|p| p.url), Some("https://a/2".to_string()));
    assert_eq!(crawl.next_page().map(|p| p.url), Some("https://a/1".to_string()));
    assert!(crawl.next_page().is_none());
    assert!(crawl.found.is_empty());
}

#[test]
fn a_variant_that_cannot_be_joined_fails_with_the_parser_message() {
    let master = b"#EXTM3U\n#EXT-X-STREAM-INF:BANDWIDTH=1280000\nhttp://h:99999/a.m3u8\n";
    match next_playlist_step("https://v.unimi.it/vod/mp4:x.mp4/playlist.m3u8", master) {
        PlaylistStep::Fail(m) => assert_eq!(m, "invalid port number"),
        _ => panic!("expected a failure"),
    }
}
