//! The decisions of the HTTP access to Ariel: the forms that are sent, how
//! a forwarding page is followed, how a size is read, where a download is
//! saved, and how an HLS playlist leads to the segments of a recording.
//! The requests themselves are made by the application.

use vstd::prelude::*;

use crate::ariel::page::{ArielPageData, ArielPageDataKind};
use crate::ariel::ArielUserConfig;
use crate::links::{url_join, url_join_checked, url_join_result, url_join_spec};
use crate::pattern::{snake_case, snake_case_spec};
use crate::text::seq_contains;
use crate::text::text_contains;

verus! {

/// A form of name/value pairs, as plain values.
pub open spec fn form_view(f: Seq<(String, String)>) -> Seq<(Seq<char>, Seq<char>)> {
    f.map_values(|p: (String, String)| (p.0@, p.1@))
}

/// The login form: `hdnSilent=true`, then the user name as `tbLogin` and the
/// password as `tbPassword`.
pub fn login_form(config: &ArielUserConfig) -> (r: Vec<(String, String)>)
    ensures
        form_view(r@) == seq![
            ("hdnSilent"@, "true"@),
            ("tbLogin"@, config.username@),
            ("tbPassword"@, config.password@),
        ],
{
    let mut f: Vec<(String, String)> = Vec::new();
    f.push(("hdnSilent".to_owned(), "true".to_owned()));
    f.push(("tbLogin".to_owned(), config.username.clone()));
    f.push(("tbPassword".to_owned(), config.password.clone()));
    assert(form_view(f@) =~= seq![
        ("hdnSilent"@, "true"@),
        ("tbLogin"@, config.username@),
        ("tbPassword"@, config.password@),
    ]);
    f
}

/// The search form: the course name as `keyword`.
pub fn search_form(course_name: &str) -> (r: Vec<(String, String)>)
    ensures
        form_view(r@) == seq![("keyword"@, course_name@)],
{
    let mut f: Vec<(String, String)> = Vec::new();
    f.push(("keyword".to_owned(), course_name.to_owned()));
    assert(form_view(f@) =~= seq![("keyword"@, course_name@)]);
    f
}

/// The markup by which a page forwards to its `v5` version.
pub open spec fn refresh_marker() -> Seq<char> {
    "<META HTTP-EQUIV=\"REFRESH\" CONTENT=\"0; URL=v5\">"@
}

/// Where a response forwards to: for a body that holds the refresh marker,
/// `v5` joined to the address the response came from (`Err` where joining
/// fails); `None` for any other body.
pub open spec fn forward_of(response_url: Seq<char>, text: Seq<char>) -> Result<Option<Seq<char>>, ()> {
    if seq_contains(text, refresh_marker()) {
        match url_join_spec(response_url, "v5"@) {
            Some(u) => Ok(Some(u)),
            None => Err(()),
        }
    } else {
        Ok(None)
    }
}

/// Where a response forwards to (see `forward_of`): the request is then made
/// again there.
pub fn forward_target(response_url: &str, text: &str) -> (r: Result<Option<String>, ()>)
    ensures
        r matches Ok(o) ==> forward_of(response_url@, text@) == Ok::<Option<Seq<char>>, ()>(
            o.deep_view(),
        ),
        r is Err ==> forward_of(response_url@, text@) is Err,
{
    if text_contains(text, "<META HTTP-EQUIV=\"REFRESH\" CONTENT=\"0; URL=v5\">") {
        match url_join(response_url, "v5") {
            Some(u) => Ok(Some(u)),
            None => Err(()),
        }
    } else {
        Ok(None)
    }
}

/// The value of a string of decimal digits.
pub open spec fn digits_value(s: Seq<char>) -> int
    decreases s.len(),
{
    if s.len() == 0 {
        0
    } else {
        digits_value(s.drop_last()) * 10 + (s.last() as int - 48)
    }
}

/// Every character of `s` is a decimal digit.
pub open spec fn all_digits(s: Seq<char>) -> bool {
    forall|i: int| 0 <= i < s.len() ==> '0' <= #[trigger] s[i] <= '9'
}

/// What `u64::from_str` returns: an optional `+`, then at least one decimal
/// digit, of a value that fits in 64 bits; `None` otherwise.
pub open spec fn parse_u64(s: Seq<char>) -> Option<u64> {
    let body = if s.len() > 0 && s[0] == '+' {
        s.drop_first()
    } else {
        s
    };
    if body.len() > 0 && all_digits(body) && digits_value(body) <= u64::MAX {
        Some(digits_value(body) as u64)
    } else {
        None
    }
}

proof fn lemma_digits_nonneg(s: Seq<char>, m: int)
    requires
        0 <= m <= s.len(),
        all_digits(s),
    ensures
        digits_value(s.subrange(0, m)) >= 0,
    decreases m,
{
    if m > 0 {
        assert(s.subrange(0, m).drop_last() =~= s.subrange(0, m - 1));
        lemma_digits_nonneg(s, m - 1);
        assert('0' <= s[m - 1] <= '9');
    }
}

proof fn lemma_digits_grow(s: Seq<char>, k: int, m: int)
    requires
        0 <= k <= m <= s.len(),
        all_digits(s),
    ensures
        digits_value(s.subrange(0, k)) <= digits_value(s.subrange(0, m)),
    decreases m,
{
    if k < m {
        assert(s.subrange(0, m).drop_last() =~= s.subrange(0, m - 1));
        lemma_digits_grow(s, k, m - 1);
        lemma_digits_nonneg(s, m - 1);
        assert('0' <= s[m - 1] <= '9');
    }
}

/// `u64::from_str`.
pub fn parse_u64_exec(text: &str) -> (r: Option<u64>)
    ensures
        r == parse_u64(text@),
{
    let cs = crate::text::chars_of(text);
    let n = cs.len();
    let start: usize = if n > 0 && cs[0] == '+' {
        1
    } else {
        0
    };
    let ghost body = if n > 0 && cs@[0] == '+' {
        cs@.drop_first()
    } else {
        cs@
    };
    assert(body =~= cs@.subrange(start as int, n as int));
    if start == n {
        return None;
    }
    let mut value: u128 = 0;
    let mut i: usize = start;
    assert(body.subrange(0, 0) =~= Seq::<char>::empty());
    while i < n
        invariant
            start <= i <= n,
            n == cs@.len(),
            cs@ == text@,
            body == (if n > 0 && cs@[0] == '+' {
                cs@.drop_first()
            } else {
                cs@
            }),
            body == cs@.subrange(start as int, n as int),
            all_digits(body.subrange(0, i - start)),
            value == digits_value(body.subrange(0, i - start)),
            value <= u64::MAX,
        decreases n - i,
    {
        let c = cs[i];
        if c < '0' || c > '9' {
            assert(body[i - start] == c);
            assert(!all_digits(body));
            return None;
        }
        let d: u128 = (c as u32 - '0' as u32) as u128;
        let next = value * 10 + d;
        let ghost p = body.subrange(0, i - start + 1);
        assert(p.drop_last() =~= body.subrange(0, i - start));
        assert(p.last() == c);
        assert(all_digits(p)) by {
            assert forall|j: int| 0 <= j < p.len() implies '0' <= #[trigger] p[j] <= '9' by {
                if j < p.len() - 1 {
                    assert(p[j] == body.subrange(0, i - start)[j]);
                }
            }
        }
        if next > u64::MAX as u128 {
            proof {
                assert(all_digits(body) ==> digits_value(body) > u64::MAX) by {
                    if all_digits(body) {
                        lemma_digits_grow(body, i - start + 1, body.len() as int);
                        assert(body.subrange(0, body.len() as int) =~= body);
                    }
                }
            }
            return None;
        }
        value = next;
        i = i + 1;
    }
    assert(body.subrange(0, body.len() as int) =~= body);
    Some(value as u64)
}

/// The size of a file, from the `Content-Length` header of a `HEAD`
/// response: its value where it reads as a number, else 0.
pub fn size_from_content_length(header: Option<&str>) -> (r: u64)
    ensures
        r == match header {
            Some(h) => match parse_u64(h@) {
                Some(v) => v,
                None => 0,
            },
            None => 0,
        },
{
    match header {
        Some(h) => match parse_u64_exec(h) {
            Some(v) => v,
            None => 0,
        },
        None => 0,
    }
}

/// Where a resource is saved below the output directory: the course, the
/// room and the thread, each in snake case, then the file name.
pub fn download_path(data: &ArielPageData) -> (r: Vec<String>)
    ensures
        r@.len() == 4,
        r@[0]@ == snake_case_spec(data.from_site@),
        r@[1]@ == snake_case_spec(data.from_ambient@),
        r@[2]@ == snake_case_spec(data.from_thread@),
        exists|id: i32| r@[3]@ == crate::ariel::page::data_file_name(data@, id),
        data.kind == ArielPageDataKind::Generic ==> r@[3]@ == data.name@,
{
    let mut p: Vec<String> = Vec::new();
    p.push(snake_case(data.from_site.as_str()));
    p.push(snake_case(data.from_ambient.as_str()));
    p.push(snake_case(data.from_thread.as_str()));
    p.push(data.get_name());
    p
}

/// A playlist, as `m3u8_rs` reads it: the addresses of the variants of a
/// master playlist, or of the segments of a media playlist.
pub enum Playlist {
    Master(Vec<String>),
    Media(Vec<String>),
}

/// A playlist as plain values.
pub enum PlaylistView {
    Master(Seq<Seq<char>>),
    Media(Seq<Seq<char>>),
}

impl View for Playlist {
    type V = PlaylistView;

    open spec fn view(&self) -> PlaylistView {
        match self {
            Playlist::Master(v) => PlaylistView::Master(v.deep_view()),
            Playlist::Media(v) => PlaylistView::Media(v.deep_view()),
        }
    }
}

/// A reading of a playlist as plain values.
pub open spec fn read_view(r: Result<Playlist, String>) -> Result<PlaylistView, Seq<char>> {
    match r {
        Ok(p) => Ok(p@),
        Err(e) => Err(e@),
    }
}

/// What `m3u8_rs::parse_playlist_res` reads from `bytes`, with the error as
/// it is displayed.
pub uninterp spec fn playlist_spec(bytes: Seq<u8>) -> Result<PlaylistView, Seq<char>>;

/// `m3u8_rs::parse_playlist_res`, each variant and segment taken by its
/// `uri`, the error by its display. Claimed: a function of `bytes`.
#[verifier::external_body]
pub(crate) fn parse_playlist(bytes: &[u8]) -> (r: Result<Playlist, String>)
    ensures
        read_view(r) == playlist_spec(bytes@),
{
    match m3u8_rs::parse_playlist_res(bytes) {
        Ok(m3u8_rs::Playlist::MasterPlaylist(pl)) => Ok(Playlist::Master(pl.variants.into_iter().map(|v| v.uri).collect())),
        Ok(m3u8_rs::Playlist::MediaPlaylist(pl)) => Ok(Playlist::Media(pl.segments.into_iter().map(|s| s.uri).collect())),
        Err(e) => Err(format!("{}", e)),
    }
}

/// What follows from reading a playlist fetched from an address.
pub enum PlaylistStep {
    /// A master playlist: fetch its first variant at this address.
    Follow(String),
    /// The addresses of the segments of the recording, in order.
    Segments(Vec<String>),
    /// Why the playlist leads nowhere: it could not be read (with the
    /// reader's message), the first variant's address could not be joined
    /// (with the URL parser's message), or a segment's address could not be
    /// joined.
    Fail(String),
}

/// What follows from a playlist fetched from `base`, as plain values: a
/// master playlist without variants has no segments; one with variants is
/// followed to its first variant (its address joined to `base`, or the
/// join's error message); a media playlist gives its segments, each address
/// joined to `base`. `None` where a segment's address cannot be joined.
pub open spec fn playlist_step(base: Seq<char>, bytes: Seq<u8>) -> Option<Result<Result<Seq<char>, Seq<Seq<char>>>, Seq<char>>> {
    match playlist_spec(bytes) {
        Err(e) => Some(Err(e)),
        Ok(PlaylistView::Master(vs)) => if vs.len() == 0 {
            Some(Ok(Err(Seq::empty())))
        } else {
            match url_join_result(base, vs[0]) {
                Ok(u) => Some(Ok(Ok(u))),
                Err(e) => Some(Err(e)),
            }
        },
        Ok(PlaylistView::Media(ss)) => match joined_all(base, ss, ss.len() as int) {
            Some(us) => Some(Ok(Err(us))),
            None => None,
        },
    }
}

/// The first `k` addresses of `ss`, each joined to `base`; `None` where one
/// cannot be.
pub open spec fn joined_all(base: Seq<char>, ss: Seq<Seq<char>>, k: int) -> Option<Seq<Seq<char>>>
    decreases k,
{
    if k <= 0 {
        Some(Seq::empty())
    } else {
        match (joined_all(base, ss, k - 1), url_join_spec(base, ss[k - 1])) {
            (Some(a), Some(u)) => Some(a.push(u)),
            _ => None,
        }
    }
}

proof fn lemma_joined_none_stays(base: Seq<char>, ss: Seq<Seq<char>>, k: int, m: int)
    requires
        0 <= k <= m,
        joined_all(base, ss, k) is None,
    ensures
        joined_all(base, ss, m) is None,
    decreases m - k,
{
    if k < m {
        lemma_joined_none_stays(base, ss, k, m - 1);
    }
}

/// What follows from a playlist fetched from `base` (see `playlist_step`);
/// `Fail` with the reader's message where it cannot be read, with the URL
/// parser's message where the first variant's address cannot be joined, and
/// with an empty message where a segment's address cannot be joined.
pub fn next_playlist_step(base: &str, bytes: &[u8]) -> (r: PlaylistStep)
    ensures
        match (r, playlist_step(base@, bytes@)) {
            (PlaylistStep::Follow(u), Some(Ok(Ok(v)))) => u@ == v,
            (PlaylistStep::Segments(s), Some(Ok(Err(v)))) => s.deep_view() == v,
            (PlaylistStep::Fail(m), Some(Err(e))) => m@ == e,
            (PlaylistStep::Fail(m), None) => m@.len() == 0,
            _ => false,
        },
{
    match parse_playlist(bytes) {
        Err(e) => PlaylistStep::Fail(e),
        Ok(Playlist::Master(vs)) => {
            if vs.len() == 0 {
                let v: Vec<String> = Vec::new();
                assert(v.deep_view() =~= Seq::<Seq<char>>::empty());
                PlaylistStep::Segments(v)
            } else {
                match url_join_checked(base, vs[0].as_str()) {
                    Ok(u) => PlaylistStep::Follow(u),
                    Err(e) => PlaylistStep::Fail(e),
                }
            }
        },
        Ok(Playlist::Media(ss)) => {
            let ghost sv = ss.deep_view();
            let mut out: Vec<String> = Vec::new();
            let mut k: usize = 0;
            assert(out.deep_view() =~= Seq::<Seq<char>>::empty());
            while k < ss.len()
                invariant
                    k <= ss@.len(),
                    sv == ss.deep_view(),
                    playlist_spec(bytes@) == Ok::<PlaylistView, Seq<char>>(PlaylistView::Media(sv)),
                    joined_all(base@, sv, k as int) == Some(out.deep_view()),
                decreases ss@.len() - k,
            {
                match url_join(base, ss[k].as_str()) {
                    Some(u) => {
                        let ghost before = out.deep_view();
                        out.push(u);
                        assert(out.deep_view() =~= before.push(u@));
                    },
                    None => {
                        proof {
                            lemma_joined_none_stays(base@, sv, k + 1, sv.len() as int);
                        }
                        return PlaylistStep::Fail(String::new());
                    },
                }
                k = k + 1;
            }
            PlaylistStep::Segments(out)
        },
    }
}

} // verus!
