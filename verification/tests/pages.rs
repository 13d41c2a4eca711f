use sebastian_core::ariel::page::{
    ArielLoginPage, ArielPage, ArielPageData, ArielPageDataKind, ArielPageKind, ArielSearchPage,
    ArielTitlePage, PageError,
};

const HOME: &str = r#"<html><body><nav id="bs-navbar"><ul><li class="active"><a href="https://ariel.unimi.it/">Home</a></li><li><a href="https://ariel.unimi.it/offerta">Offerta</a></li></ul></nav><ul class="list-unstyled"><li><a href="https://mycourse.ariel.ctu.unimi.it/v5/home/Default.aspx">My course</a></li><li><a href="https://www.unimi.it/">UniMi</a></li></ul><ul class="list-unstyled"><li><a href="https://other.ariel.ctu.unimi.it/v5/">Other</a></li></ul></body></html>"#;

const SITE_HOME: &str = r#"<html><body><span id="ctl24_lblProjectTitle">  My Course  </span><ul class="nav navbar-nav"><li class="active"><a href="Default.aspx">Home</a></li><li><a href="frm3Frame.aspx?toolName=contents&amp;x=1">Contenuti</a></li></ul></body></html>"#;

const AMBIENT: &str = r#"<html><body><span id="ctl24_lblProjectTitle">My Course</span><ul class="nav navbar-nav"><li><a href="Default.aspx">Home</a></li><li class="active"><a href="ThreadList.aspx">CONTENUTI</a></li></ul><h1 class="arielTitle"> Lessons </h1><h1 class="arielTitle">Slides</h1><h2 class="arielTitle">Not a room title</h2><div id="roomList"><a href="ThreadList.aspx?fc=1&amp;RoomID=7">Room 7</a><a href="Other.aspx?x=1">Other</a><span href="ThreadList.aspx?RoomID=9">not a link</span></div></body></html>"#;

const THREADS: &str = r#"<html><body><table><tr><td><h2 class="arielTitle"> Lesson 1 </h2><a class="filename" href="File.aspx?fileID=1&amp;n=2">slides.pdf</a><video type="video/mp4" src="https://videolectures.unimi.it/vod/mp4:LessonOne.mp4/manifest.m3u8"></video></td></tr><tr><td><h2 class="arielTitle">Lesson 2</h2><a class="filename" href="File.aspx?fileID=1&amp;n=2">slides again.pdf</a><a class="filename" href="File.aspx?fileID=3">notes.txt</a></td></tr></table></body></html>"#;

#[test]
fn login_page_is_recognised_by_its_marker() {
    assert!(ArielLoginPage::is_login_page_raw(b"<div id=\"cvLogin\"></div>"));
    assert!(ArielLoginPage::is_login_page_raw(b"cvLogin"));
    assert!(!ArielLoginPage::is_login_page_raw(b"cvLogi"));
    assert!(!ArielLoginPage::is_login_page_raw(b""));
    assert!(!ArielLoginPage::is_login_page_raw(b"cvlogin and cv Login"));
}

#[test]
fn login_is_rejected_where_the_form_shows_an_error() {
    let rejected = r#"<html><body><div id="cvLogin"><form><span class="text-danger">Wrong password</span></form></div></body></html>"#;
    assert_eq!(ArielLoginPage::is_logged_in(rejected.to_string()), Err(PageError::LoginRejected));
    let plain = r#"<html><body><div id="cvLogin"><form><span class="text-info">Log in</span></form></div></body></html>"#;
    assert_eq!(ArielLoginPage::is_logged_in(plain.to_string()), Ok(()));
    let other = r#"<html><body><span class="text-danger">elsewhere</span></body></html>"#;
    assert_eq!(ArielLoginPage::is_logged_in(other.to_string()), Ok(()));
}

#[test]
fn search_page_lists_one_course_per_project() {
    let raw = r#"<div class="ariel-project"><a class="ariel" href="https://course1.ariel.ctu.unimi.it/v5/home/Default.aspx">Course 1</a><a href="https://www.unimi.it/persone/teacher/rossi">Rossi</a><a href="https://www.unimi.it/it/teacher/bianchi">Bianchi</a><span class="bg-tag-success">accessibile</span></div><div class="ariel-project"><a class="ariel" href="https://course2.ariel.ctu.unimi.it/v5/">Course 2</a></div>"#;
    let pages = ArielSearchPage::title_pages(raw.to_string());
    assert_eq!(pages.len(), 2);
    assert_eq!(pages[0].title, "Course 1");
    assert_eq!(pages[0].url, "https://course1.ariel.ctu.unimi.it/v5/home/Default.aspx");
    assert_eq!(
        pages[0].holders,
        vec!["https://www.unimi.it/persone/teacher/rossi".to_string(), "https://www.unimi.it/it/teacher/bianchi".to_string()]
    );
    assert!(pages[0].can_access);
    assert_eq!(pages[1].title, "Course 2");
    assert!(pages[1].holders.is_empty());
    assert!(!pages[1].can_access);
}

#[test]
fn course_addresses_are_normalised() {
    let raw = r#"<div class="ariel-project"><a class="ariel" href="HTTPS://Course3.Example.COM">Course 3</a></div>"#;
    let pages = ArielSearchPage::title_pages(raw.to_string());
    assert_eq!(pages.len(), 1);
    assert_eq!(pages[0].url, "https://course3.example.com/");
}

#[test]
fn search_page_without_course_link_cannot_be_read() {
    let raw = r#"<div class="ariel-project"><span>no link</span></div>"#;
    assert!(ArielSearchPage::try_title_pages(raw.to_string()).is_none());
    assert_eq!(ArielSearchPage::try_title_pages("<p>nothing</p>".to_string()).map(|v| v.len()), Some(0));
}

#[test]
fn title_page_display() {
    let p = ArielTitlePage {
        title: "Algebra".to_string(),
        url: "https://a/".to_string(),
        holders: vec!["h1".to_string(), "h2".to_string()],
        can_access: true,
    };
    assert_eq!(p.to_display_string(), "Algebra [h1, h2] accessible");
    let q = ArielTitlePage { title: "Logic".to_string(), url: "https://b/".to_string(), holders: vec![], can_access: false };
    assert_eq!(q.to_display_string(), "Logic [] non accessible");
}

#[test]
fn home_page_kind_title_and_children() {
    let page = ArielPage::from_raw(HOME.to_string(), "https://ariel.unimi.it/".to_string()).unwrap();
    assert_eq!(page.kind, ArielPageKind::HomePage);
    assert_eq!(page.get_title(), "Ariel");
    assert_eq!(page.get_site_name(), "");
    assert_eq!(
        page.get_children(),
        vec![
            "https://mycourse.ariel.ctu.unimi.it/v5/home/Default.aspx".to_string(),
            "https://other.ariel.ctu.unimi.it/v5/".to_string()
        ]
    );
    assert_eq!(page.to_display_string(), "[] - Ariel");
}

#[test]
fn site_home_page_leads_to_contents() {
    let page = ArielPage::from_raw(SITE_HOME.to_string(), "https://mycourse.ariel.ctu.unimi.it/v5/home/Default.aspx".to_string()).unwrap();
    assert_eq!(page.kind, ArielPageKind::SiteHomePage);
    assert_eq!(page.get_title(), "My Course");
    assert_eq!(page.get_site_name(), "My Course");
    assert_eq!(
        page.get_children(),
        vec!["https://mycourse.ariel.ctu.unimi.it/v5/home/frm3Frame.aspx?toolName=contents&amp;x=1".to_string()]
    );
}

#[test]
fn ambient_page_title_and_threads() {
    let page = ArielPage::from_raw(AMBIENT.to_string(), "https://mycourse.ariel.ctu.unimi.it/v5/home/ThreadList.aspx".to_string()).unwrap();
    assert_eq!(page.kind, ArielPageKind::SiteAmbient);
    assert_eq!(page.get_title(), "Lessons - Slides");
    assert_eq!(
        page.get_children(),
        vec!["https://mycourse.ariel.ctu.unimi.it/v5/home/ThreadList.aspx?fc=1&RoomID=7".to_string()]
    );
    assert_eq!(page.to_display_string(), "[My Course] - Lessons - Slides");
}

#[test]
fn unknown_page_has_no_children() {
    let page = ArielPage::from_raw("<html><body><p>hello</p></body></html>".to_string(), "https://x.example/".to_string()).unwrap();
    assert_eq!(page.kind, ArielPageKind::Unknown);
    assert_eq!(page.get_title(), "Unknown (https://x.example/)");
    assert!(page.get_children().is_empty());
    assert!(page.get_data().is_empty());
}

#[test]
fn page_data_is_one_per_address() {
    let page = ArielPage::from_raw(THREADS.to_string(), "https://mycourse.ariel.ctu.unimi.it/v5/frm3/ThreadList.aspx?RoomID=7".to_string()).unwrap();
    let data = page.get_data();
    assert_eq!(data.len(), 3);
    assert_eq!(data[0].name, "slides.pdf");
    assert_eq!(data[0].url, "https://mycourse.ariel.ctu.unimi.it/v5/frm3/File.aspx?fileID=1&n=2");
    assert_eq!(data[0].kind, ArielPageDataKind::Generic);
    assert_eq!(data[0].from_thread, "Lesson 1");
    assert_eq!(data[0].from_ambient, page.get_title());
    assert_eq!(data[1].name, "recording_Lesson 1");
    assert_eq!(data[1].url, "https://videolectures.unimi.it/vod/mp4:LessonOne.mp4/manifest.m3u8");
    assert_eq!(data[1].kind, ArielPageDataKind::LessonStream);
    assert_eq!(data[2].name, "notes.txt");
    assert_eq!(data[2].from_thread, "Lesson 2");
    for i in 0..data.len() {
        for j in i + 1..data.len() {
            assert_ne!(data[i].url, data[j].url);
        }
    }
}

#[test]
fn page_data_with_a_relative_video_cannot_be_read() {
    let raw = r#"<html><body><table><tr><td><video type="video/mp4" src="relative/manifest.m3u8"></video></td></tr></table></body></html>"#;
    let page = ArielPage::from_raw(raw.to_string(), "https://a.example/".to_string()).unwrap();
    assert!(page.try_get_data().is_none());
}

fn data(kind: ArielPageDataKind, name: &str, url: &str) -> ArielPageData {
    ArielPageData {
        from_site: "Site".to_string(),
        from_ambient: "Room".to_string(),
        from_thread: "Thread".to_string(),
        name: name.to_string(),
        url: url.to_string(),
        kind,
    }
}

#[test]
fn file_name_of_a_file_is_its_name() {
    let d = data(ArielPageDataKind::Generic, "slides.pdf", "https://a/File.aspx");
    assert_eq!(d.get_name(), "slides.pdf");
    assert_eq!(d.to_display_string(), "slides.pdf (url: https://a/File.aspx)");
}

#[test]
fn file_name_of_a_recording_comes_from_its_address() {
    let d = data(ArielPageDataKind::LessonStream, "recording_x", "https://v.unimi.it/vod/mp4:LessonOne.mp4/manifest.m3u8");
    assert_eq!(d.get_name(), "lesson_one.mp4");
    let e = data(ArielPageDataKind::LessonStream, "recording_x", "https://v.unimi.it/vod/mp4:LessonOne/manifest.m3u8");
    assert_eq!(e.get_name(), "lesson_one");
}

#[test]
fn file_name_of_a_recording_without_a_server_name_is_numbered() {
    let d = data(ArielPageDataKind::LessonStream, "recording_x", "https://v.unimi.it/other/stream.m3u8");
    let n = d.get_name();
    assert!(n.starts_with("recording_x"));
    let suffix = &n["recording_x".len()..];
    assert!(suffix.parse::<i32>().is_ok(), "{}", n);
}

#[test]
fn file_name_with_a_drawn_number() {
    let d = data(ArielPageDataKind::LessonStream, "recording_x", "https://v.unimi.it/other/stream.m3u8");
    assert_eq!(d.file_name_with(42), "recording_x42");
    assert_eq!(d.file_name_with(-7), "recording_x-7");
    let e = data(ArielPageDataKind::LessonStream, "recording_x", "https://v.unimi.it/vod/mp4:LessonOne.mp4/manifest.m3u8");
    assert_eq!(e.file_name_with(42), "lesson_one.mp4");
    let f = data(ArielPageDataKind::Generic, "slides.pdf", "https://a/File.aspx");
    assert_eq!(f.file_name_with(42), "slides.pdf");
}

#[test]
fn any_short_markup_is_read() {
    assert!(ArielPage::from_raw("<p>hi</p>".to_string(), "https://a/".to_string()).is_ok());
    assert!(ArielPage::from_raw("<div><p>unclosed".to_string(), "https://a/".to_string()).is_ok());
}
