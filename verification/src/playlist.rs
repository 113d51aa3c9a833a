//! HLS playlists (m3u8): where segment URLs are resolved from, and which
//! lines of a playlist name segments.
use vstd::prelude::*;
use crate::text::{
    chars_of, range_starts_with, starts_with, string_from_chars, trim, trim_bounds,
};

verus! {

/// The longest prefix of `url` that ends in `'/'`; empty when `url` holds no `'/'`.
pub open spec fn base_url_of(url: Seq<char>) -> Seq<char>
    decreases url.len(),
{
    if url.len() == 0 {
        url
    } else if url.last() == '/' {
        url
    } else {
        base_url_of(url.drop_last())
    }
}

/// The pieces of `s` between `'\n'` separators, from left to right.
/// There is always at least one piece (the last one may be empty).
pub open spec fn split_lines(s: Seq<char>) -> Seq<Seq<char>>
    decreases s.len(),
{
    if s.len() == 0 {
        seq![Seq::<char>::empty()]
    } else {
        let rest = split_lines(s.drop_last());
        if s.last() == '\n' {
            rest.push(Seq::<char>::empty())
        } else {
            rest.update(rest.len() - 1, rest.last().push(s.last()))
        }
    }
}

/// The characters `http`.
pub open spec fn http_prefix() -> Seq<char> {
    seq!['h', 't', 't', 'p']
}

/// What one playlist line contributes: nothing for a blank line or a
/// `#` comment; the trimmed line itself when it starts with `http`; else the
/// trimmed line appended to `base`.
pub open spec fn segment_of_line(line: Seq<char>, base: Seq<char>) -> Option<Seq<char>> {
    let t = trim(line);
    if t.len() == 0 || t[0] == '#' {
        None
    } else if starts_with(t, http_prefix()) {
        Some(t)
    } else {
        Some(base + t)
    }
}

/// The segment URLs named by `lines`, in order.
pub open spec fn segments_of_lines(lines: Seq<Seq<char>>, base: Seq<char>) -> Seq<Seq<char>>
    decreases lines.len(),
{
    if lines.len() == 0 {
        Seq::<Seq<char>>::empty()
    } else {
        let rest = segments_of_lines(lines.drop_last(), base);
        match segment_of_line(lines.last(), base) {
            Some(u) => rest.push(u),
            None => rest,
        }
    }
}

/// The segment URLs of playlist `content`, resolved against `base`.
pub open spec fn playlist_segments(content: Seq<char>, base: Seq<char>) -> Seq<Seq<char>> {
    segments_of_lines(split_lines(content), base)
}

/// The views of a vector of strings.
pub open spec fn strings_view(v: Seq<String>) -> Seq<Seq<char>> {
    v.map_values(|s: String| s@)
}

/// Every string of `base_url_of(url)` is a prefix of `url`, ends in `'/'`
/// unless empty, and no `'/'` stands after it in `url`.
pub proof fn lemma_base_url_shape(url: Seq<char>)
    ensures
        base_url_of(url).len() <= url.len(),
        base_url_of(url) == url.take(base_url_of(url).len() as int),
        base_url_of(url).len() > 0 ==> base_url_of(url).last() == '/',
        forall|i: int| base_url_of(url).len() <= i < url.len() ==> url[i] != '/',
    decreases url.len(),
{
    if url.len() > 0 && url.last() != '/' {
        lemma_base_url_shape(url.drop_last());
        assert(url.drop_last().take(base_url_of(url).len() as int) == url.take(
            base_url_of(url).len() as int,
        ));
        assert forall|i: int| base_url_of(url).len() <= i < url.len() implies url[i] != '/' by {
            if i < url.len() - 1 {
                assert(url[i] == url.drop_last()[i]);
            }
        }
    }
}

/// The base URL of `url`: everything up to and including its last `'/'`,
/// or the empty string when `url` holds no `'/'`.
pub fn get_base_url(url: &str) -> (r: String)
    ensures
        r@ == base_url_of(url@),
{
    let cs = chars_of(url);
    let mut n = cs.len();
    assert(cs@.take(n as int) == cs@);
    while n > 0 && cs[n - 1] != '/'
        invariant
            n <= cs@.len(),
            base_url_of(cs@) == base_url_of(cs@.take(n as int)),
        decreases n,
    {
        assert(cs@.take(n as int).drop_last() == cs@.take(n - 1));
        n = n - 1;
    }
    assert(cs@.take(n as int) == cs@.subrange(0, n as int));
    string_from_chars(&cs, 0, n)
}

/// The segment that the line `cs[from..to]` names, as `segment_of_line` says.
fn segment_for_line(cs: &[char], from: usize, to: usize, base_url: &str, http: &[char]) -> (r:
    Option<String>)
    requires
        from <= to <= cs@.len(),
        http@ == http_prefix(),
    ensures
        r matches Some(s) ==> segment_of_line(cs@.subrange(from as int, to as int), base_url@)
            == Some(s@),
        r is None ==> segment_of_line(cs@.subrange(from as int, to as int), base_url@) is None,
{
    let (a, b) = trim_bounds(cs, from, to);
    if a == b || cs[a] == '#' {
        return None;
    }
    let line = string_from_chars(cs, a, b);
    if range_starts_with(cs, a, b, http) {
        Some(line)
    } else {
        let mut full = String::from_str(base_url);
        full.append(line.as_str());
        Some(full)
    }
}

/// Parses an m3u8 playlist: each non-blank line that is not a `#` comment
/// names a segment, absolute when it starts with `http` and otherwise
/// relative to `base_url`. Always succeeds.
pub fn parse_m3u8_segments(content: &str, base_url: &str) -> (r: Result<Vec<String>, String>)
    ensures
        r is Ok,
        r matches Ok(v) ==> strings_view(v@) == playlist_segments(content@, base_url@),
{
    let cs = chars_of(content);
    let http = vec!['h', 't', 't', 'p'];
    assert(http@ == http_prefix());
    let mut segments: Vec<String> = Vec::new();
    let mut line_start: usize = 0;
    let mut i: usize = 0;
    let ghost mut done: Seq<Seq<char>> = Seq::empty();
    assert(cs@.take(0) == Seq::<char>::empty());
    while i < cs.len()
        invariant
            line_start <= i <= cs@.len(),
            cs@ == content@,
            http@ == http_prefix(),
            split_lines(cs@.take(i as int)) == done.push(cs@.subrange(line_start as int, i as int)),
            strings_view(segments@) == segments_of_lines(done, base_url@),
        decreases cs.len() - i,
    {
        assert(cs@.take(i + 1).drop_last() == cs@.take(i as int));
        if cs[i] == '\n' {
            let next = segment_for_line(&cs, line_start, i, base_url, &http);
            proof {
                let cur = cs@.subrange(line_start as int, i as int);
                assert(done.push(cur).drop_last() == done);
            }
            match next {
                Some(s) => {
                    let ghost before = segments@;
                    segments.push(s);
                    assert(segments@.drop_last() == before);
                    assert(strings_view(segments@) == strings_view(before).push(segments@.last()@));
                },
                None => {},
            }
            proof {
                done = done.push(cs@.subrange(line_start as int, i as int));
            }
            line_start = i + 1;
            assert(cs@.subrange(line_start as int, i + 1) == Seq::<char>::empty());
        } else {
            assert(cs@.subrange(line_start as int, i + 1) == cs@.subrange(
                line_start as int,
                i as int,
            ).push(cs@[i as int]));
        }
        i = i + 1;
    }
    let last = segment_for_line(&cs, line_start, cs.len(), base_url, &http);
    assert(cs@.take(cs@.len() as int) == cs@);
    proof {
        let cur = cs@.subrange(line_start as int, cs@.len() as int);
        assert(done.push(cur).drop_last() == done);
    }
    match last {
        Some(s) => {
            let ghost before = segments@;
            segments.push(s);
            assert(segments@.drop_last() == before);
            assert(strings_view(segments@) == strings_view(before).push(segments@.last()@));
        },
        None => {},
    }
    Ok(segments)
}

/// The segment URLs of an HLS playlist fetched from `m3u8_url`, resolved
/// against the playlist's base URL; the error `未找到视频片段` when the
/// playlist names no segment.
pub fn hls_segment_urls(m3u8_url: &str, content: &str) -> (r: Result<Vec<String>, String>)
    ensures
        r matches Ok(v) ==> strings_view(v@) == playlist_segments(content@, base_url_of(m3u8_url@))
            && v@.len() > 0,
        r matches Err(e) ==> playlist_segments(content@, base_url_of(m3u8_url@)).len() == 0
            && e@ == "未找到视频片段"@,
{
    let base_url = get_base_url(m3u8_url);
    let segments = match parse_m3u8_segments(content, base_url.as_str()) {
        Ok(v) => v,
        Err(e) => {
            return Err(e);
        },
    };
    if segments.len() == 0 {
        assert(strings_view(segments@).len() == 0);
        return Err(String::from_str("未找到视频片段"));
    }
    Ok(segments)
}

/// Every segment URL of a playlist is a non-blank line taken as it stands
/// when it starts with `http`, or the base URL followed by a non-blank line.
pub proof fn lemma_segments_are_resolved(lines: Seq<Seq<char>>, base: Seq<char>)
    ensures
        forall|i: int|
            0 <= i < segments_of_lines(lines, base).len() ==> {
                let u = #[trigger] segments_of_lines(lines, base)[i];
                ||| starts_with(u, http_prefix())
                ||| starts_with(u, base) && u.len() > base.len()
            },
    decreases lines.len(),
{
    if lines.len() > 0 {
        lemma_segments_are_resolved(lines.drop_last(), base);
        let rest = segments_of_lines(lines.drop_last(), base);
        let t = trim(lines.last());
        if !(t.len() == 0 || t[0] == '#') && !starts_with(t, http_prefix()) {
            assert((base + t).take(base.len() as int) == base);
        }
        assert forall|i: int| 0 <= i < segments_of_lines(lines, base).len() implies {
            let u = #[trigger] segments_of_lines(lines, base)[i];
            ||| starts_with(u, http_prefix())
            ||| starts_with(u, base) && u.len() > base.len()
        } by {
            if i < rest.len() {
                assert(segments_of_lines(lines, base)[i] == rest[i]);
            }
        }
    }
}

/// There is always at least one line.
pub proof fn lemma_split_lines_nonempty(s: Seq<char>)
    ensures
        split_lines(s).len() >= 1,
    decreases s.len(),
{
    if s.len() > 0 {
        lemma_split_lines_nonempty(s.drop_last());
    }
}

/// The lines of two texts joined by a newline are the lines of the first
/// followed by the lines of the second.
pub proof fn lemma_split_lines_join(a: Seq<char>, b: Seq<char>)
    ensures
        split_lines(a + seq!['\n'] + b) == split_lines(a) + split_lines(b),
    decreases b.len(),
{
    let s = a + seq!['\n'] + b;
    if b.len() == 0 {
        assert(s.drop_last() == a);
        assert(split_lines(b) == seq![Seq::<char>::empty()]);
        assert(split_lines(a).push(Seq::<char>::empty()) == split_lines(a) + split_lines(b));
    } else {
        assert(s.drop_last() == a + seq!['\n'] + b.drop_last());
        lemma_split_lines_join(a, b.drop_last());
        lemma_split_lines_nonempty(b.drop_last());
        let la = split_lines(a);
        let lb = split_lines(b.drop_last());
        let rest = la + lb;
        assert(s.last() == b.last());
        if b.last() == '\n' {
            assert(rest.push(Seq::<char>::empty()) == la + lb.push(Seq::<char>::empty()));
        } else {
            assert(rest.update(rest.len() - 1, rest.last().push(s.last())) == la + lb.update(
                lb.len() - 1,
                lb.last().push(b.last()),
            ));
        }
    }
}

/// The segments of two runs of lines are the segments of the first run
/// followed by those of the second.
pub proof fn lemma_segments_of_lines_concat(x: Seq<Seq<char>>, y: Seq<Seq<char>>, base: Seq<char>)
    ensures
        segments_of_lines(x + y, base) == segments_of_lines(x, base) + segments_of_lines(y, base),
    decreases y.len(),
{
    if y.len() == 0 {
        assert(x + y == x);
        assert(segments_of_lines(x, base) + Seq::<Seq<char>>::empty() == segments_of_lines(x, base));
    } else {
        assert((x + y).drop_last() == x + y.drop_last());
        assert((x + y).last() == y.last());
        lemma_segments_of_lines_concat(x, y.drop_last(), base);
        let sx = segments_of_lines(x, base);
        let sy = segments_of_lines(y.drop_last(), base);
        match segment_of_line(y.last(), base) {
            Some(u) => {
                assert((sx + sy).push(u) == sx + sy.push(u));
            },
            None => {},
        }
    }
}

/// Two playlist texts joined by a newline name the segments of the first
/// followed by the segments of the second.
pub proof fn lemma_playlist_join(a: Seq<char>, b: Seq<char>, base: Seq<char>)
    ensures
        playlist_segments(a + seq!['\n'] + b, base) == playlist_segments(a, base)
            + playlist_segments(b, base),
{
    lemma_split_lines_join(a, b);
    lemma_segments_of_lines_concat(split_lines(a), split_lines(b), base);
}

} // verus!
