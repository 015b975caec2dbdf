//! The "now playing" line: a template with `{placeholder}`s filled from a track, and the debris
//! an empty placeholder leaves behind tidied away.
use crate::clock::{duration_as_nanos, duration_nanos};
use crate::model::item::{texts, Track};
use crate::text::{
    append_chars, chars_of, decimal_string, eq_str, find_char, first_index_of, lemma_first_index_of,
    lemma_first_index_of_at, slice_vec,
    string_from_chars, trim, trim_chars, u64_to_chars,
};
use vstd::prelude::*;

verus! {

/// The texts joined with `sep` between them.
pub open spec fn join_texts(v: Seq<Seq<char>>, sep: Seq<char>) -> Seq<char>
    decreases v.len(),
{
    if v.len() == 0 {
        Seq::empty()
    } else if v.len() == 1 {
        v[0]
    } else {
        join_texts(v.drop_last(), sep) + sep + v.last()
    }
}

/// A number in decimal, or nothing.
pub open spec fn opt_decimal(n: Option<nat>) -> Seq<char> {
    match n {
        Some(x) => decimal_string(x),
        None => Seq::empty(),
    }
}

/// A number below 100 in two digits.
pub open spec fn two_digits(n: nat) -> Seq<char> {
    if n < 10 { seq!['0'] + decimal_string(n) } else { decimal_string(n) }
}

/// A play time as `m:ss` (whole seconds).
pub open spec fn minutes_seconds(nanos: nat) -> Seq<char> {
    let secs = nanos / 1_000_000_000;
    decimal_string(secs / 60) + seq![':'] + two_digits(secs % 60)
}

/// What the placeholder `key` stands for in `t`; nothing for an unknown one.
pub open spec fn placeholder(key: Seq<char>, t: Track) -> Option<Seq<char>> {
    if key == "title"@ {
        Some(t.name@)
    } else if key == "artist"@ {
        Some(join_texts(texts(t.artist_names@), ", "@))
    } else if key == "album_artist"@ {
        Some(join_texts(texts(t.album_artist_names@), ", "@))
    } else if key == "album"@ {
        Some(t.album_name@)
    } else if key == "year"@ {
        Some(opt_decimal(match t.year { Some(y) => Some(y as nat), None => None }))
    } else if key == "track_number"@ {
        Some(opt_decimal(match t.track_number { Some(y) => Some(y as nat), None => None }))
    } else if key == "disc_number"@ {
        Some(opt_decimal(match t.disc_number { Some(y) => Some(y as nat), None => None }))
    } else if key == "genre"@ {
        Some(if t.genres@.len() > 0 { t.genres@[0]@ } else { Seq::empty() })
    } else if key == "duration"@ {
        Some(minutes_seconds(duration_nanos(t.duration)))
    } else {
        None
    }
}

/// The template with every closed `{key}` replaced by its value; an unknown key stays as it is
/// written, and an unclosed `{` is plain text.
pub open spec fn expand(tpl: Seq<char>, t: Track) -> Seq<char>
    decreases tpl.len(),
{
    match first_index_of(tpl, '{') {
        None => tpl,
        Some(o) => {
            proof { lemma_first_index_of(tpl, '{'); }
            let after = tpl.skip(o + 1);
            match first_index_of(after, '}') {
                None => tpl,
                Some(c) => {
                    proof { lemma_first_index_of(after, '}'); }
                    let key = after.take(c);
                    tpl.take(o) + (match placeholder(key, t) {
                        Some(v) => v,
                        None => seq!['{'] + key + seq!['}'],
                    }) + expand(after.skip(c + 1), t)
                },
            }
        },
    }
}

/// `s` with every (non-overlapping, left to right) `pat` replaced by `rep`.
pub open spec fn replace_all(s: Seq<char>, pat: Seq<char>, rep: Seq<char>) -> Seq<char>
    decreases s.len(),
{
    if s.len() == 0 {
        s
    } else if pat.len() > 0 && s.len() >= pat.len() && s.take(pat.len() as int) == pat {
        rep + replace_all(s.skip(pat.len() as int), pat, rep)
    } else {
        seq![s[0]] + replace_all(s.skip(1), pat, rep)
    }
}

/// `s` with every run of spaces shortened to one.
pub open spec fn squeeze_spaces(s: Seq<char>) -> Seq<char>
    decreases s.len(),
{
    if s.len() == 0 {
        s
    } else if s.len() >= 2 && s[0] == ' ' && s[1] == ' ' {
        squeeze_spaces(s.skip(1))
    } else {
        seq![s[0]] + squeeze_spaces(s.skip(1))
    }
}

/// Separators an empty placeholder can leave dangling at the end.
pub open spec fn is_debris(c: char) -> bool {
    c == '-' || c == '\u{2014}' || c == '\u{b7}' || c == ','
}

/// `s` without trailing separators.
pub open spec fn trim_end_debris(s: Seq<char>) -> Seq<char>
    decreases s.len(),
{
    if s.len() > 0 && is_debris(s.last()) { trim_end_debris(s.drop_last()) } else { s }
}

/// The line tidied: empty `()`, `[]` and `{}` pairs dropped, runs of spaces shortened,
/// whitespace and dangling separators trimmed off.
pub open spec fn spec_tidy(s: Seq<char>) -> Seq<char> {
    let no_pairs = replace_all(replace_all(replace_all(s, "()"@, Seq::empty()), "[]"@, Seq::empty()), "{}"@, Seq::empty());
    trim(trim_end_debris(trim(squeeze_spaces(no_pairs))))
}

/// The "now playing" line for `track` from `template`.
pub open spec fn spec_format_now_playing(template: Seq<char>, track: Track) -> Seq<char> {
    spec_tidy(expand(template, track))
}

proof fn lemma_expand_braced(key: Seq<char>, rest: Seq<char>, t: Track)
    requires
        forall|i: int| 0 <= i < key.len() ==> key[i] != '}',
        placeholder(key, t) is Some,
    ensures
        expand(seq!['{'] + key + seq!['}'] + rest, t) == placeholder(key, t)->0 + expand(rest, t),
{
    let tpl = seq!['{'] + key + seq!['}'] + rest;
    lemma_first_index_of_at(tpl, '{', 0);
    let after = tpl.skip(1);
    assert(after =~= key + seq!['}'] + rest);
    assert(after[key.len() as int] == '}');
    assert forall|k: int| 0 <= k < key.len() implies after[k] != '}' by {
        assert(after[k] == key[k]);
    }
    lemma_first_index_of_at(after, '}', key.len() as int);
    assert(after.take(key.len() as int) =~= key);
    assert(after.skip(key.len() as int + 1) =~= rest);
    assert(tpl.take(0) =~= Seq::<char>::empty());
}

/// Law: a `{key}` at the front of a template becomes what the key names in the track, and the rest
/// of the template is expanded after it: `{title}` the track's name, `{artist}` and
/// `{album_artist}` its artists and album artists joined by `, `, `{album}` its album, `{genre}`
/// its first genre, `{duration}` its length as `m:ss`, and `{year}`, `{track_number}` and
/// `{disc_number}` that number of the track in decimal, each empty when the track has none.
pub proof fn lemma_placeholder_values(t: Track, rest: Seq<char>)
    ensures
        expand("{artist}"@ + rest, t) == join_texts(texts(t.artist_names@), ", "@) + expand(rest, t),
        expand("{album_artist}"@ + rest, t) == join_texts(texts(t.album_artist_names@), ", "@) + expand(rest, t),
        expand("{duration}"@ + rest, t) == minutes_seconds(duration_nanos(t.duration)) + expand(rest, t),
        expand("{title}"@ + rest, t) == t.name@ + expand(rest, t),
        expand("{album}"@ + rest, t) == t.album_name@ + expand(rest, t),
        expand("{year}"@ + rest, t) == (match t.year { Some(n) => decimal_string(n as nat), None => Seq::empty() }) + expand(rest, t),
        expand("{track_number}"@ + rest, t) == (match t.track_number { Some(n) => decimal_string(n as nat), None => Seq::empty() }) + expand(rest, t),
        expand("{disc_number}"@ + rest, t) == (match t.disc_number { Some(n) => decimal_string(n as nat), None => Seq::empty() }) + expand(rest, t),
        expand("{genre}"@ + rest, t) == (if t.genres@.len() > 0 { t.genres@[0]@ } else { Seq::empty() }) + expand(rest, t),
{
    reveal_strlit("title");
    reveal_strlit("artist");
    reveal_strlit("album_artist");
    reveal_strlit("album");
    reveal_strlit("year");
    reveal_strlit("track_number");
    reveal_strlit("disc_number");
    reveal_strlit("genre");
    reveal_strlit("duration");
    assert(expand("{title}"@ + rest, t) == t.name@ + expand(rest, t)) by {
        reveal_strlit("{title}");
        assert("{title}"@ + rest =~= seq!['{'] + "title"@ + seq!['}'] + rest);
        
        assert(placeholder("title"@, t) == Some(t.name@));
        lemma_expand_braced("title"@, rest, t);
    }
    assert(expand("{album}"@ + rest, t) == t.album_name@ + expand(rest, t)) by {
        reveal_strlit("{album}");
        assert("{album}"@ + rest =~= seq!['{'] + "album"@ + seq!['}'] + rest);
        assert(("album"@)[0] != ("title"@)[0]);
        assert(("album"@).len() != ("artist"@).len());
        assert(("album"@).len() != ("album_artist"@).len());
        assert(placeholder("album"@, t) == Some(t.album_name@));
        lemma_expand_braced("album"@, rest, t);
    }
    assert(expand("{year}"@ + rest, t) == (match t.year { Some(n) => decimal_string(n as nat), None => Seq::empty() }) + expand(rest, t)) by {
        reveal_strlit("{year}");
        assert("{year}"@ + rest =~= seq!['{'] + "year"@ + seq!['}'] + rest);
        assert(("year"@).len() != ("title"@).len());
        assert(("year"@).len() != ("artist"@).len());
        assert(("year"@).len() != ("album_artist"@).len());
        assert(("year"@).len() != ("album"@).len());
        assert(placeholder("year"@, t) == Some((match t.year { Some(n) => decimal_string(n as nat), None => Seq::empty() })));
        lemma_expand_braced("year"@, rest, t);
    }
    assert(expand("{track_number}"@ + rest, t) == (match t.track_number { Some(n) => decimal_string(n as nat), None => Seq::empty() }) + expand(rest, t)) by {
        reveal_strlit("{track_number}");
        assert("{track_number}"@ + rest =~= seq!['{'] + "track_number"@ + seq!['}'] + rest);
        assert(("track_number"@).len() != ("title"@).len());
        assert(("track_number"@).len() != ("artist"@).len());
        assert(("track_number"@)[0] != ("album_artist"@)[0]);
        assert(("track_number"@).len() != ("album"@).len());
        assert(("track_number"@).len() != ("year"@).len());
        assert(placeholder("track_number"@, t) == Some((match t.track_number { Some(n) => decimal_string(n as nat), None => Seq::empty() })));
        lemma_expand_braced("track_number"@, rest, t);
    }
    assert(expand("{disc_number}"@ + rest, t) == (match t.disc_number { Some(n) => decimal_string(n as nat), None => Seq::empty() }) + expand(rest, t)) by {
        reveal_strlit("{disc_number}");
        assert("{disc_number}"@ + rest =~= seq!['{'] + "disc_number"@ + seq!['}'] + rest);
        assert(("disc_number"@).len() != ("title"@).len());
        assert(("disc_number"@).len() != ("artist"@).len());
        assert(("disc_number"@).len() != ("album_artist"@).len());
        assert(("disc_number"@).len() != ("album"@).len());
        assert(("disc_number"@).len() != ("year"@).len());
        assert(("disc_number"@).len() != ("track_number"@).len());
        assert(placeholder("disc_number"@, t) == Some((match t.disc_number { Some(n) => decimal_string(n as nat), None => Seq::empty() })));
        lemma_expand_braced("disc_number"@, rest, t);
    }
    assert(expand("{genre}"@ + rest, t) == (if t.genres@.len() > 0 { t.genres@[0]@ } else { Seq::empty() }) + expand(rest, t)) by {
        reveal_strlit("{genre}");
        assert("{genre}"@ + rest =~= seq!['{'] + "genre"@ + seq!['}'] + rest);
        assert(("genre"@)[0] != ("title"@)[0]);
        assert(("genre"@).len() != ("artist"@).len());
        assert(("genre"@).len() != ("album_artist"@).len());
        assert(("genre"@)[0] != ("album"@)[0]);
        assert(("genre"@).len() != ("year"@).len());
        assert(("genre"@).len() != ("track_number"@).len());
        assert(("genre"@).len() != ("disc_number"@).len());
        assert(placeholder("genre"@, t) == Some((if t.genres@.len() > 0 { t.genres@[0]@ } else { Seq::empty() })));
        lemma_expand_braced("genre"@, rest, t);
    }
    assert(expand("{artist}"@ + rest, t) == join_texts(texts(t.artist_names@), ", "@) + expand(rest, t)) by {
        reveal_strlit("{artist}");
        assert("{artist}"@ + rest =~= seq!['{'] + "artist"@ + seq!['}'] + rest);
        assert(("artist"@).len() != ("title"@).len());
        assert(placeholder("artist"@, t) == Some(join_texts(texts(t.artist_names@), ", "@)));
        lemma_expand_braced("artist"@, rest, t);
    }
    assert(expand("{album_artist}"@ + rest, t) == join_texts(texts(t.album_artist_names@), ", "@) + expand(rest, t)) by {
        reveal_strlit("{album_artist}");
        assert("{album_artist}"@ + rest =~= seq!['{'] + "album_artist"@ + seq!['}'] + rest);
        assert(("album_artist"@).len() != ("title"@).len());
        assert(("album_artist"@).len() != ("artist"@).len());
        assert(placeholder("album_artist"@, t) == Some(join_texts(texts(t.album_artist_names@), ", "@)));
        lemma_expand_braced("album_artist"@, rest, t);
    }
    assert(expand("{duration}"@ + rest, t) == minutes_seconds(duration_nanos(t.duration)) + expand(rest, t)) by {
        reveal_strlit("{duration}");
        assert("{duration}"@ + rest =~= seq!['{'] + "duration"@ + seq!['}'] + rest);
        assert(("duration"@).len() != ("title"@).len());
        assert(("duration"@).len() != ("artist"@).len());
        assert(("duration"@).len() != ("album_artist"@).len());
        assert(("duration"@).len() != ("album"@).len());
        assert(("duration"@).len() != ("year"@).len());
        assert(("duration"@).len() != ("track_number"@).len());
        assert(("duration"@).len() != ("disc_number"@).len());
        assert(("duration"@).len() != ("genre"@).len());
        assert(placeholder("duration"@, t) == Some(minutes_seconds(duration_nanos(t.duration))));
        lemma_expand_braced("duration"@, rest, t);
    }
}

fn join_with(v: &Vec<String>, sep: &str) -> (r: Vec<char>)
    ensures
        r@ == join_texts(texts(v@), sep@),
{
    let ghost tv = texts(v@);
    let mut r: Vec<char> = Vec::new();
    let mut i: usize = 0;
    while i < v.len()
        invariant
            i <= v@.len(),
            tv == texts(v@),
            r@ == join_texts(tv.take(i as int), sep@),
        decreases v@.len() - i,
    {
        proof {
            assert(tv.take(i as int + 1).drop_last() =~= tv.take(i as int));
            assert(tv.take(i as int + 1).last() == v@[i as int]@);
        }
        if i > 0 {
            append_chars(&mut r, &chars_of(sep));
        } else {
            assert(tv.take(1) =~= seq![v@[0]@]);
        }
        append_chars(&mut r, &chars_of(v[i].as_str()));
        i = i + 1;
    }
    proof { assert(tv.take(i as int) =~= tv); }
    r
}

fn decimal_opt_u32(n: Option<u32>) -> (r: Vec<char>)
    ensures
        r@ == opt_decimal(match n { Some(y) => Some(y as nat), None => None }),
{
    match n {
        Some(x) => u64_to_chars(x as u64),
        None => Vec::new(),
    }
}

fn value_of(key: &[char], t: &Track) -> (r: Option<Vec<char>>)
    ensures
        match placeholder(key@, *t) {
            Some(v) => r matches Some(x) && x@ == v,
            None => r is None,
        },
{
    if eq_str(key, "title") {
        Some(chars_of(t.name.as_str()))
    } else if eq_str(key, "artist") {
        Some(join_with(&t.artist_names, ", "))
    } else if eq_str(key, "album_artist") {
        Some(join_with(&t.album_artist_names, ", "))
    } else if eq_str(key, "album") {
        Some(chars_of(t.album_name.as_str()))
    } else if eq_str(key, "year") {
        Some(match t.year { Some(y) => u64_to_chars(y as u64), None => Vec::new() })
    } else if eq_str(key, "track_number") {
        Some(decimal_opt_u32(t.track_number))
    } else if eq_str(key, "disc_number") {
        Some(decimal_opt_u32(t.disc_number))
    } else if eq_str(key, "genre") {
        Some(if t.genres.len() > 0 { chars_of(t.genres[0].as_str()) } else { Vec::new() })
    } else if eq_str(key, "duration") {
        let secs = duration_as_nanos(&t.duration) / 1_000_000_000;
        let mut r = Vec::new();
        proof {
            let n = duration_nanos(t.duration);
            assert(secs / 60 <= u64::MAX) by (nonlinear_arith)
                requires
                    secs == n / 1_000_000_000,
                    n <= 0xffff_ffff_ffff_ffff * 1_000_000_000 + 999_999_999;
        }
        append_chars(&mut r, &u64_to_chars((secs / 60) as u64));
        r.push(':');
        let s = (secs % 60) as u64;
        if s < 10 {
            r.push('0');
        }
        append_chars(&mut r, &u64_to_chars(s));
        Some(r)
    } else {
        None
    }
}

fn expand_template(tpl: &[char], t: &Track) -> (r: Vec<char>)
    ensures
        r@ == expand(tpl@, *t),
{
    let mut out: Vec<char> = Vec::new();
    let mut rest: Vec<char> = slice_vec(tpl, 0, tpl.len());
    proof { assert(rest@ =~= tpl@); }
    loop
        invariant
            out@ + expand(rest@, *t) == expand(tpl@, *t),
        decreases rest@.len(),
    {
        proof { lemma_first_index_of(rest@, '{'); }
        match find_char(&rest, '{') {
            None => {
                append_chars(&mut out, &rest);
                return out;
            },
            Some(open) => {
                let after = slice_vec(&rest, open + 1, rest.len());
                assert(after@ =~= rest@.skip(open + 1));
                proof { lemma_first_index_of(after@, '}'); }
                match find_char(&after, '}') {
                    None => {
                        append_chars(&mut out, &rest);
                        return out;
                    },
                    Some(close) => {
                        let ghost before = out@;
                        let head = slice_vec(&rest, 0, open);
                        assert(head@ =~= rest@.take(open as int));
                        append_chars(&mut out, &head);
                        let key = slice_vec(&after, 0, close);
                        assert(key@ =~= after@.take(close as int));
                        match value_of(&key, t) {
                            Some(v) => {
                                append_chars(&mut out, &v);
                            },
                            None => {
                                out.push('{');
                                append_chars(&mut out, &key);
                                out.push('}');
                            },
                        }
                        let next = slice_vec(&after, close + 1, after.len());
                        assert(next@ =~= after@.skip(close + 1));
                        proof {
                            let mid = match placeholder(key@, *t) {
                                Some(v) => v,
                                None => seq!['{'] + key@ + seq!['}'],
                            };
                            assert(out@ =~= before + rest@.take(open as int) + mid);
                            assert(expand(rest@, *t) == rest@.take(open as int) + mid + expand(next@, *t));
                            assert(out@ + expand(next@, *t) =~= before + expand(rest@, *t));
                        }
                        rest = next;
                    },
                }
            },
        }
    }
}

fn replace_pairs(s: &Vec<char>, a: char, b: char) -> (r: Vec<char>)
    ensures
        r@ == replace_all(s@, seq![a, b], Seq::empty()),
{
    let mut r: Vec<char> = Vec::new();
    let mut i: usize = 0;
    let n = s.len();
    proof {
        assert(s@.skip(0) =~= s@);
        assert(r@ + replace_all(s@, seq![a, b], Seq::empty()) =~= replace_all(s@, seq![a, b], Seq::empty()));
    }
    while i < n
        invariant
            n == s@.len(),
            i <= n,
            r@ + replace_all(s@.skip(i as int), seq![a, b], Seq::empty()) == replace_all(s@, seq![a, b], Seq::empty()),
        decreases n - i,
    {
        let ghost rest = s@.skip(i as int);
        if i + 1 < n && s[i] == a && s[i + 1] == b {
            proof {
                assert(rest.take(2) =~= seq![a, b]);
                assert(rest.skip(2) =~= s@.skip(i as int + 2));
            }
            i = i + 2;
        } else {
            proof {
                assert(!(rest.len() >= 2 && rest.take(2) == seq![a, b])) by {
                    if rest.len() >= 2 && rest.take(2) == seq![a, b] {
                        assert(rest.take(2)[0] == s@[i as int]);
                        assert(rest.take(2)[1] == s@[i as int + 1]);
                    }
                }
                assert(rest.skip(1) =~= s@.skip(i as int + 1));
                assert(r@.push(s@[i as int]) + replace_all(s@.skip(i as int + 1), seq![a, b], Seq::empty())
                    =~= r@ + (seq![s@[i as int]] + replace_all(rest.skip(1), seq![a, b], Seq::empty())));
            }
            r.push(s[i]);
            i = i + 1;
        }
    }
    proof {
        assert(s@.skip(n as int) =~= Seq::<char>::empty());
        assert(r@ =~= r@ + Seq::<char>::empty());
    }
    r
}

fn squeeze(s: &Vec<char>) -> (r: Vec<char>)
    ensures
        r@ == squeeze_spaces(s@),
{
    let mut r: Vec<char> = Vec::new();
    let mut i: usize = 0;
    let n = s.len();
    proof {
        assert(s@.skip(0) =~= s@);
        assert(r@ + squeeze_spaces(s@) =~= squeeze_spaces(s@));
    }
    while i < n
        invariant
            n == s@.len(),
            i <= n,
            r@ + squeeze_spaces(s@.skip(i as int)) == squeeze_spaces(s@),
        decreases n - i,
    {
        let ghost rest = s@.skip(i as int);
        proof { assert(rest.skip(1) =~= s@.skip(i as int + 1)); }
        if i + 1 < n && s[i] == ' ' && s[i + 1] == ' ' {
        } else {
            proof {
                assert(r@.push(s@[i as int]) + squeeze_spaces(s@.skip(i as int + 1))
                    =~= r@ + (seq![s@[i as int]] + squeeze_spaces(rest.skip(1))));
            }
            r.push(s[i]);
        }
        i = i + 1;
    }
    proof {
        assert(s@.skip(n as int) =~= Seq::<char>::empty());
        assert(r@ =~= r@ + Seq::<char>::empty());
    }
    r
}

fn drop_trailing_debris(s: &Vec<char>) -> (r: Vec<char>)
    ensures
        r@ == trim_end_debris(s@),
{
    let mut hi = s.len();
    proof { assert(s@.take(hi as int) =~= s@); }
    while hi > 0 && (s[hi - 1] == '-' || s[hi - 1] == '\u{2014}' || s[hi - 1] == '\u{b7}' || s[hi - 1] == ',')
        invariant
            hi <= s@.len(),
            trim_end_debris(s@.take(hi as int)) == trim_end_debris(s@),
        decreases hi,
    {
        proof { assert(s@.take(hi as int).drop_last() =~= s@.take(hi as int - 1)); }
        hi = hi - 1;
    }
    let r = slice_vec(s, 0, hi);
    assert(r@ =~= s@.take(hi as int));
    proof { assert(s@.take(s@.len() as int) =~= s@); }
    r
}

/// The "now playing" line: `template`'s placeholders (`{title}`, `{artist}`, `{album_artist}`,
/// `{album}`, `{year}`, `{track_number}`, `{disc_number}`, `{genre}`, `{duration}`) filled from
/// `track`, then tidied so a missing value leaves no empty brackets or doubled spaces.
pub fn format_now_playing(template: &str, track: &Track) -> (r: String)
    ensures
        r@ == spec_format_now_playing(template@, *track),
{
    let expanded = expand_template(&chars_of(template), track);
    let a = replace_pairs(&expanded, '(', ')');
    let b = replace_pairs(&a, '[', ']');
    let c = replace_pairs(&b, '{', '}');
    let d = squeeze(&c);
    let e = trim_chars(&d);
    let f = drop_trailing_debris(&e);
    let g = trim_chars(&f);
    proof {
        reveal_strlit("()");
        reveal_strlit("[]");
        reveal_strlit("{}");
        assert("()"@ =~= seq!['(', ')']);
        assert("[]"@ =~= seq!['[', ']']);
        assert("{}"@ =~= seq!['{', '}']);
    }
    string_from_chars(&g)
}

} // verus!
