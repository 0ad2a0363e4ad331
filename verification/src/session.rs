//! One run of the radar: which collected articles are new, and what the run does next after
//! each outside step.

use vstd::prelude::*;
use vstd::string::StringExecFns;

use crate::feed::{article_views, Article, ArticleView};
use crate::text::{
    append_str, char_views, chars_of, find_from, find_in, keep_some, lemma_find_from,
    lemma_keep_some_append, lemma_keep_some_elements, occurs_at, option_view, string_views,
    take_first,
    to_string, to_strings, trim, trim_chars,
};

verus! {

/// The most new articles that one run analyses.
pub const MAX_ARTICLES_PER_SESSION: usize = 30;

/// The article, where its URL is not among those already processed.
pub open spec fn unprocessed(a: ArticleView, processed: Seq<Seq<char>>) -> Option<ArticleView> {
    if processed.contains(a.url) {
        None
    } else {
        Some(a)
    }
}

/// The articles whose URL is not among those already processed, in the order collected, at
/// most the session's limit of them.
pub open spec fn new_articles(collected: Seq<ArticleView>, processed: Seq<Seq<char>>) -> Seq<
    ArticleView,
> {
    take_first(
        keep_some(collected.map_values(|a: ArticleView| unprocessed(a, processed))),
        MAX_ARTICLES_PER_SESSION as nat,
    )
}

/// The new articles of a run: those whose URL was not processed before, in the order
/// collected, at most the session's limit of them.
pub fn select_new_articles(collected: &Vec<Article>, processed: &Vec<String>) -> (r: Vec<Article>)
    ensures
        article_views(r@) == new_articles(article_views(collected@), string_views(processed@)),
{
    let mut seen: Vec<Vec<char>> = Vec::new();
    let mut k: usize = 0;
    while k < processed.len()
        invariant
            k <= processed@.len(),
            char_views(seen@) == string_views(processed@).take(k as int),
        decreases processed@.len() - k,
    {
        let ghost prev = char_views(seen@);
        seen.push(chars_of(processed[k].as_str()));
        k = k + 1;
        assert(char_views(seen@) =~= prev.push(processed@[k - 1]@));
        assert(char_views(seen@) =~= string_views(processed@).take(k as int));
    }
    assert(string_views(processed@).take(k as int) =~= string_views(processed@));
    let ghost procs = string_views(processed@);
    let ghost cands = article_views(collected@).map_values(
        |a: ArticleView| unprocessed(a, procs),
    );
    let mut out: Vec<Article> = Vec::new();
    let mut i: usize = 0;
    while i < collected.len()
        invariant
            i <= collected@.len(),
            char_views(seen@) == procs,
            procs == string_views(processed@),
            cands == article_views(collected@).map_values(|a: ArticleView| unprocessed(a, procs)),
            out@.len() < MAX_ARTICLES_PER_SESSION,
            article_views(out@) == keep_some(cands.take(i as int)),
        decreases collected@.len() - i,
    {
        assert(cands.take(i + 1).drop_last() =~= cands.take(i as int));
        assert(cands.take(i + 1).last() == cands[i as int]);
        let url = chars_of(collected[i].url.as_str());
        let skip = crate::text::contains_chars(&seen, url.as_slice());
        i = i + 1;
        if !skip {
            let ghost prev = article_views(out@);
            out.push(collected[i - 1].clone());
            assert(article_views(out@) =~= prev.push(collected@[i - 1]@));
            assert(article_views(out@) =~= keep_some(cands.take(i as int)));
            if out.len() >= MAX_ARTICLES_PER_SESSION {
                proof {
                    lemma_keep_some_prefix_len(cands, i as int);
                }
                assert(take_first(keep_some(cands), MAX_ARTICLES_PER_SESSION as nat)
                    =~= article_views(out@));
                return out;
            }
        }
        assert(article_views(out@) =~= keep_some(cands.take(i as int)));
    }
    assert(cands.take(i as int) =~= cands);
    out
}

/// The articles that a run passes over because their URL was processed before: those met
/// before the run has found the session's limit of new articles, in the order collected.
pub open spec fn skipped_articles(collected: Seq<ArticleView>, processed: Seq<Seq<char>>) -> Seq<
    ArticleView,
> {
    let cands = collected.map_values(|a: ArticleView| unprocessed(a, processed));
    keep_some(
        Seq::new(
            collected.len(),
            |i: int|
                if processed.contains(collected[i].url) && keep_some(cands.take(i)).len()
                    < MAX_ARTICLES_PER_SESSION {
                    Some(collected[i])
                } else {
                    None
                },
        ),
    )
}

/// The articles that a run passes over because their URL was processed before.
pub fn skipped_processed_articles(collected: &Vec<Article>, processed: &Vec<String>) -> (r: Vec<
    Article,
>)
    ensures
        article_views(r@) == skipped_articles(
            article_views(collected@),
            string_views(processed@),
        ),
{
    let mut seen: Vec<Vec<char>> = Vec::new();
    let mut k: usize = 0;
    while k < processed.len()
        invariant
            k <= processed@.len(),
            char_views(seen@) == string_views(processed@).take(k as int),
        decreases processed@.len() - k,
    {
        let ghost prev = char_views(seen@);
        seen.push(chars_of(processed[k].as_str()));
        k = k + 1;
        assert(char_views(seen@) =~= prev.push(processed@[k - 1]@));
        assert(char_views(seen@) =~= string_views(processed@).take(k as int));
    }
    assert(string_views(processed@).take(k as int) =~= string_views(processed@));
    let ghost procs = string_views(processed@);
    let ghost arts = article_views(collected@);
    let ghost cands = arts.map_values(|a: ArticleView| unprocessed(a, procs));
    let ghost flags = Seq::new(
        arts.len(),
        |i: int|
            if procs.contains(arts[i].url) && keep_some(cands.take(i)).len()
                < MAX_ARTICLES_PER_SESSION {
                Some(arts[i])
            } else {
                None
            },
    );
    let mut out: Vec<Article> = Vec::new();
    let mut count: usize = 0;
    let mut i: usize = 0;
    while i < collected.len()
        invariant
            i <= collected@.len(),
            char_views(seen@) == procs,
            procs == string_views(processed@),
            arts == article_views(collected@),
            cands == arts.map_values(|a: ArticleView| unprocessed(a, procs)),
            flags == Seq::new(
                arts.len(),
                |i: int|
                    if procs.contains(arts[i].url) && keep_some(cands.take(i)).len()
                        < MAX_ARTICLES_PER_SESSION {
                        Some(arts[i])
                    } else {
                        None
                    },
            ),
            count == keep_some(cands.take(i as int)).len(),
            count <= i,
            article_views(out@) == keep_some(flags.take(i as int)),
        decreases collected@.len() - i,
    {
        assert(cands.take(i + 1).drop_last() =~= cands.take(i as int));
        assert(flags.take(i + 1).drop_last() =~= flags.take(i as int));
        let url = chars_of(collected[i].url.as_str());
        let is_processed = crate::text::contains_chars(&seen, url.as_slice());
        if is_processed && count < MAX_ARTICLES_PER_SESSION {
            let ghost prev = article_views(out@);
            out.push(collected[i].clone());
            assert(article_views(out@) =~= prev.push(arts[i as int]));
        }
        if !is_processed {
            count = count + 1;
        }
        i = i + 1;
        assert(article_views(out@) =~= keep_some(flags.take(i as int)));
    }
    assert(flags.take(i as int) =~= flags);
    out
}

/// What `keep_some` keeps of a prefix is a prefix of what it keeps of the whole.
pub proof fn lemma_keep_some_prefix_len<T>(s: Seq<Option<T>>, i: int)
    requires
        0 <= i <= s.len(),
    ensures
        keep_some(s.take(i)).len() <= keep_some(s).len(),
        keep_some(s).take(keep_some(s.take(i)).len() as int) == keep_some(s.take(i)),
    decreases s.len() - i,
{
    if i < s.len() {
        lemma_keep_some_prefix_len(s, i + 1);
        assert(s.take(i + 1).drop_last() =~= s.take(i));
        let a = keep_some(s.take(i));
        let b = keep_some(s.take(i + 1));
        assert(b.take(a.len() as int) =~= a);
        assert(keep_some(s).take(a.len() as int) =~= keep_some(s).take(b.len() as int).take(
            a.len() as int,
        ));
    } else {
        assert(s.take(i) =~= s);
        assert(keep_some(s).take(keep_some(s).len() as int) =~= keep_some(s));
    }
}


/// The pieces of `s[pos..]` between its line breaks, as `str::split('\n')` yields them.
pub open spec fn lines_from(s: Seq<char>, pos: int) -> Seq<Seq<char>>
    decreases s.len() + 1 - pos,
{
    if pos < 0 || pos > s.len() {
        seq![]
    } else {
        match find_from(s, seq!['\n'], pos) {
            None => seq![s.subrange(pos, s.len() as int)],
            Some(k) => {
                proof {
                    lemma_find_from(s, seq!['\n'], pos);
                }
                seq![s.subrange(pos, k)] + lines_from(s, k + 1)
            },
        }
    }
}

proof fn lemma_find_shift(p: Seq<char>, y: Seq<char>, q: Seq<char>, j: int)
    requires
        0 <= j,
    ensures
        find_from(p + y, q, p.len() + j) == match find_from(y, q, j) {
            Some(k) => Some(p.len() + k),
            None => None,
        },
    decreases y.len() + 1 - j,
{
    let s = p + y;
    if j + q.len() <= y.len() {
        assert(s.subrange(p.len() + j, p.len() + j + q.len()) =~= y.subrange(j, j + q.len()));
        if !occurs_at(y, q, j) {
            lemma_find_shift(p, y, q, j + 1);
        }
    }
}

proof fn lemma_lines_shift(p: Seq<char>, y: Seq<char>, j: int)
    requires
        0 <= j <= y.len(),
    ensures
        lines_from(p + y, p.len() + j) == lines_from(y, j),
    decreases y.len() - j,
{
    let s = p + y;
    let nl = seq!['\n'];
    lemma_find_shift(p, y, nl, j);
    lemma_find_from(y, nl, j);
    match find_from(y, nl, j) {
        Some(k) => {
            lemma_lines_shift(p, y, k + 1);
            assert(s.subrange(p.len() + j, p.len() + k) =~= y.subrange(j, k));
        },
        None => {
            assert(s.subrange(p.len() + j, s.len() as int) =~= y.subrange(j, y.len() as int));
        },
    }
}

/// A text without a line break is one line.
pub proof fn lemma_lines_of_one(x: Seq<char>)
    requires
        !x.contains('\n'),
    ensures
        lines_from(x, 0) == seq![x],
{
    let nl = seq!['\n'];
    lemma_find_from(x, nl, 0);
    if let Some(k) = find_from(x, nl, 0) {
        assert(x.subrange(k, k + 1)[0] == x[k]);
        assert(x.contains(x[k]));
    }
    assert(x.subrange(0, x.len() as int) =~= x);
}

/// A line without a line break, a line break, and then more: the first line and then the
/// lines of the rest.
pub proof fn lemma_lines_of_line_break(x: Seq<char>, y: Seq<char>)
    requires
        !x.contains('\n'),
    ensures
        lines_from(x + seq!['\n'] + y, 0) == seq![x] + lines_from(y, 0),
{
    let nl = seq!['\n'];
    let p = x + nl;
    let s = x + nl + y;
    assert(s.subrange(x.len() as int, x.len() + 1int) =~= nl);
    assert(occurs_at(s, nl, x.len() as int));
    lemma_find_from(s, nl, 0);
    if let Some(k) = find_from(s, nl, 0) {
        if k < x.len() {
            assert(s.subrange(k, k + 1)[0] == s[k]);
            assert(s[k] == x[k]);
            assert(x.contains(x[k]));
        }
    }
    assert(find_from(s, nl, 0) == Some(x.len() as int));
    assert(s.subrange(0, x.len() as int) =~= x);
    assert(s =~= p + y);
    lemma_lines_shift(p, y, 0);
    assert(lines_from(s, 0) == seq![x] + lines_from(s, x.len() + 1int));
}

/// The line, trimmed, where anything is left of it.
pub open spec fn url_line(line: Seq<char>) -> Option<Seq<char>> {
    if trim(line).len() > 0 {
        Some(trim(line))
    } else {
        None
    }
}

/// The URLs that a record of processed URLs holds: its lines, trimmed, without the empty ones.
pub open spec fn processed_urls(content: Seq<char>) -> Seq<Seq<char>> {
    keep_some(lines_from(content, 0).map_values(|l: Seq<char>| url_line(l)))
}

/// The URLs that the record `content` of processed URLs holds, one per line.
pub fn parse_processed_urls(content: &str) -> (r: Vec<String>)
    ensures
        string_views(r@) == processed_urls(content@),
{
    let s = chars_of(content);
    let mut nl: Vec<char> = Vec::new();
    nl.push('\n');
    assert(nl@ =~= seq!['\n']);
    let n = s.len();
    let ghost all = lines_from(s@, 0);
    let mut out: Vec<Vec<char>> = Vec::new();
    let ghost mut done: Seq<Seq<char>> = seq![];
    let mut pos: usize = 0;
    loop
        invariant
            pos <= n == s@.len(),
            s@ == content@,
            nl@ == seq!['\n'],
            all == lines_from(s@, 0),
            all == done + lines_from(s@, pos as int),
            char_views(out@) == keep_some(done.map_values(|l: Seq<char>| url_line(l))),
        decreases n + 1 - pos,
    {
        proof {
            lemma_find_from(s@, nl@, pos as int);
        }
        let (end, last) = match find_in(s.as_slice(), nl.as_slice(), pos) {
            Some(k) => (k, false),
            None => (n, true),
        };
        let line = crate::text::sub_chars(s.as_slice(), pos, end);
        let t = trim_chars(line.as_slice());
        let ghost prev_done = done;
        proof {
            done = done.push(line@);
            assert(done.map_values(|l: Seq<char>| url_line(l)).drop_last() =~= prev_done.map_values(
                |l: Seq<char>| url_line(l),
            ));
        }
        if t.len() > 0 {
            let ghost prev = char_views(out@);
            out.push(t);
            assert(char_views(out@) =~= prev.push(trim(line@)));
        }
        assert(done.map_values(|l: Seq<char>| url_line(l)).last() == url_line(line@));
        assert(char_views(out@) =~= keep_some(done.map_values(|l: Seq<char>| url_line(l))));
        if last {
            assert(lines_from(s@, pos as int) =~= seq![line@]);
            assert(all =~= done);
            return to_strings(&out);
        }
        assert(lines_from(s@, pos as int) =~= seq![line@] + lines_from(s@, end + 1));
        assert(all =~= done + lines_from(s@, end + 1));
        pos = end + 1;
    }
}

/// The URLs of the articles, in order.
pub open spec fn article_urls(articles: Seq<ArticleView>) -> Seq<Seq<char>> {
    articles.map_values(|a: ArticleView| a.url)
}

/// What recording the URLs appends to the record of processed URLs: each URL followed by a
/// line break.
pub open spec fn processed_record(urls: Seq<Seq<char>>) -> Seq<char>
    decreases urls.len(),
{
    if urls.len() == 0 {
        seq![]
    } else {
        processed_record(urls.drop_last()) + urls.last() + seq!['\n']
    }
}

/// The text that recording the articles appends to the record of processed URLs.
pub fn format_processed_urls(articles: &[Article]) -> (r: String)
    ensures
        r@ == processed_record(article_urls(article_views(articles@))),
{
    let ghost urls = article_urls(article_views(articles@));
    let mut out: Vec<char> = Vec::new();
    let mut i: usize = 0;
    while i < articles.len()
        invariant
            i <= articles@.len(),
            urls == article_urls(article_views(articles@)),
            out@ == processed_record(urls.take(i as int)),
        decreases articles@.len() - i,
    {
        append_str(&mut out, articles[i].url.as_str());
        out.push('\n');
        assert(urls.take(i + 1).drop_last() =~= urls.take(i as int));
        i = i + 1;
        assert(out@ =~= processed_record(urls.take(i as int)));
    }
    assert(urls.take(i as int) =~= urls);
    to_string(&out)
}

/// A URL that reads back from the record as it was written: not empty, without white space
/// at either end, and without a line break.
pub open spec fn recordable_url(u: Seq<char>) -> bool {
    &&& u.len() > 0
    &&& trim(u) == u
    &&& !u.contains('\n')
}

proof fn lemma_find_in_prefix(x: Seq<char>, s: Seq<char>, p: Seq<char>, pos: int)
    requires
        0 <= pos,
        x.len() <= s.len(),
        forall|i: int| 0 <= i < x.len() ==> s[i] == x[i],
        find_from(x, p, pos) is Some,
    ensures
        find_from(s, p, pos) == find_from(x, p, pos),
    decreases x.len() + 1 - pos,
{
    assert(s.subrange(pos, pos + p.len()) =~= x.subrange(pos, pos + p.len()));
    if !occurs_at(x, p, pos) {
        lemma_find_in_prefix(x, s, p, pos + 1);
    }
}

proof fn lemma_lines_of_appended(x: Seq<char>, u: Seq<char>, pos: int)
    requires
        0 <= pos <= x.len(),
        pos == x.len() || x.last() == '\n',
        !u.contains('\n'),
    ensures
        lines_from(x, pos).len() > 0,
        lines_from(x, pos).last() == Seq::<char>::empty(),
        lines_from(x + u + seq!['\n'], pos) == lines_from(x, pos).drop_last() + seq![u, seq![]],
    decreases x.len() - pos,
{
    let nl = seq!['\n'];
    let s = x + u + nl;
    let n = x.len() as int;
    if pos == n {
        let e = n + u.len() as int;
        assert(s.subrange(e, e + 1) =~= nl);
        assert(occurs_at(s, nl, e));
        lemma_find_from(s, nl, pos);
        match find_from(s, nl, pos) {
            Some(k) => {
                if k < e {
                    assert(s.subrange(k, k + 1)[0] == s[k]);
                    assert(s[k] == u[k - n]);
                    assert(u.contains(u[k - n]));
                }
            },
            None => {},
        }
        assert(find_from(s, nl, pos) == Some(e));
        assert(s.subrange(pos, e) =~= u);
        assert(s.subrange(e + 1, e + 1) =~= Seq::<char>::empty());
        assert(lines_from(s, e + 1) == seq![Seq::<char>::empty()]);
        assert(x.subrange(pos, n) =~= Seq::<char>::empty());
        assert(lines_from(x, pos) == seq![Seq::<char>::empty()]);
        assert(lines_from(s, pos) =~= seq![u, seq![]]);
    } else {
        assert(x.subrange(n - 1, n) =~= nl);
        assert(occurs_at(x, nl, n - 1));
        lemma_find_from(x, nl, pos);
        let k = find_from(x, nl, pos)->0;
        assert(k <= n - 1);
        assert forall|i: int| 0 <= i < x.len() implies s[i] == x[i] by {}
        lemma_find_in_prefix(x, s, nl, pos);
        lemma_lines_of_appended(x, u, k + 1);
        assert(s.subrange(pos, k) =~= x.subrange(pos, k));
        let rest = lines_from(x, k + 1);
        assert(lines_from(x, pos) == seq![x.subrange(pos, k)] + rest);
        assert((seq![x.subrange(pos, k)] + rest).drop_last() =~= seq![x.subrange(pos, k)]
            + rest.drop_last());
        assert(lines_from(s, pos) =~= lines_from(x, pos).drop_last() + seq![u, seq![]]);
    }
}

proof fn lemma_record_one(x: Seq<char>, u: Seq<char>)
    requires
        x.len() == 0 || x.last() == '\n',
        !u.contains('\n'),
    ensures
        processed_urls(x + u + seq!['\n']) == processed_urls(x) + keep_some(seq![url_line(u)]),
{
    lemma_lines_of_appended(x, u, 0);
    let f = |l: Seq<char>| url_line(l);
    let lx = lines_from(x, 0);
    let tail: Seq<Seq<char>> = seq![u, seq![]];
    assert((lx.drop_last() + tail).map_values(f) =~= lx.drop_last().map_values(f)
        + tail.map_values(f));
    lemma_keep_some_append(lx.drop_last().map_values(f), tail.map_values(f));
    assert(trim(Seq::<char>::empty()) =~= Seq::<char>::empty());
    assert(tail.map_values(f) =~= seq![url_line(u)].push(None::<Seq<char>>));
    assert(seq![url_line(u)].push(None::<Seq<char>>).drop_last() =~= seq![url_line(u)]);
    assert(lx.map_values(f).drop_last() =~= lx.drop_last().map_values(f));
}

/// What a record of processed URLs gives back after a run appends its URLs to it, where it
/// was empty or ended with a line break and no URL holds a line break: what it gave before,
/// then each appended URL, trimmed, that is not blank; exactly the appended URLs where each
/// of them reads back as written.
pub proof fn lemma_processed_record_round_trip(prev: Seq<char>, urls: Seq<Seq<char>>)
    requires
        prev.len() == 0 || prev.last() == '\n',
        forall|i: int| 0 <= i < urls.len() ==> !(#[trigger] urls[i]).contains('\n'),
    ensures
        processed_urls(prev + processed_record(urls)) == processed_urls(prev) + keep_some(
            urls.map_values(|u: Seq<char>| url_line(u)),
        ),
        (forall|i: int| 0 <= i < urls.len() ==> recordable_url(#[trigger] urls[i]))
            ==> processed_urls(prev + processed_record(urls)) == processed_urls(prev) + urls,
    decreases urls.len(),
{
    let f = |u: Seq<char>| url_line(u);
    if urls.len() == 0 {
        assert(prev + processed_record(urls) =~= prev);
        assert(processed_urls(prev) + urls =~= processed_urls(prev));
        assert(processed_urls(prev) + keep_some(urls.map_values(f)) =~= processed_urls(prev));
    } else {
        let init = urls.drop_last();
        let u = urls.last();
        lemma_processed_record_round_trip(prev, init);
        let x = prev + processed_record(init);
        assert(prev + processed_record(urls) =~= x + u + seq!['\n']);
        assert(urls[urls.len() - 1] == u);
        lemma_record_one(x, u);
        assert(urls.map_values(f).drop_last() =~= init.map_values(f));
        assert(keep_some(seq![url_line(u)]) =~= match url_line(u) {
            Some(t) => seq![t],
            None => seq![],
        }) by {
            reveal_with_fuel(keep_some, 2);
            assert(seq![url_line(u)].drop_last() =~= Seq::<Option<Seq<char>>>::empty());
        }
        assert(processed_urls(prev + processed_record(urls)) =~= processed_urls(prev) + keep_some(
            urls.map_values(f),
        ));
        if forall|i: int| 0 <= i < urls.len() ==> recordable_url(#[trigger] urls[i]) {
            assert(recordable_url(urls[urls.len() - 1]));
            assert forall|i: int| 0 <= i < init.len() implies recordable_url(#[trigger] init[i]) by {
                assert(init[i] == urls[i]);
            }
            assert(processed_urls(prev) + urls =~= processed_urls(prev) + init + seq![u]);
        }
    }
}

/// A URL that one run records is not selected again by a later run, whatever it collects,
/// where the record was empty or ended with a line break and the URL reads back as written.
pub proof fn lemma_recorded_not_selected_again(
    prev: Seq<char>,
    recorded: Seq<ArticleView>,
    later: Seq<ArticleView>,
)
    requires
        prev.len() == 0 || prev.last() == '\n',
        forall|i: int| 0 <= i < recorded.len() ==> recordable_url(#[trigger] recorded[i].url),
    ensures
        forall|i: int, j: int|
            0 <= i < recorded.len() && 0 <= j < new_articles(
                later,
                processed_urls(prev + processed_record(article_urls(recorded))),
            ).len() ==> #[trigger] new_articles(
                later,
                processed_urls(prev + processed_record(article_urls(recorded))),
            )[j].url != #[trigger] recorded[i].url,
{
    let urls = article_urls(recorded);
    assert forall|i: int| 0 <= i < urls.len() implies recordable_url(#[trigger] urls[i]) by {
        assert(urls[i] == recorded[i].url);
    }
    lemma_processed_record_round_trip(prev, urls);
    let procs = processed_urls(prev + processed_record(urls));
    lemma_new_articles_selection(later, procs);
    assert forall|i: int, j: int|
        0 <= i < recorded.len() && 0 <= j < new_articles(later, procs).len() implies #[trigger] new_articles(
            later,
            procs,
        )[j].url != #[trigger] recorded[i].url by {
        let a = new_articles(later, procs)[j];
        assert(procs[processed_urls(prev).len() + i] == urls[i]);
        assert(procs.contains(recorded[i].url));
    }
}

/// The value of a required environment variable, where it holds anything but white space;
/// else the message that it is not set.
pub open spec fn env_value(key: Seq<char>, value: Option<Seq<char>>) -> Result<Seq<char>, Seq<char>> {
    match value {
        Some(v) => if trim(v).len() > 0 {
            Ok(v)
        } else {
            Err("Variabel environment "@ + key + " belum diisi."@)
        },
        None => Err("Variabel environment "@ + key + " belum diisi."@),
    }
}

/// The value of the required environment variable `key`, given what the environment holds
/// for it.
pub fn check_env_value(key: &str, value: Option<String>) -> (r: Result<String, String>)
    ensures
        match r {
            Ok(v) => env_value(key@, option_view(value)) == Ok::<Seq<char>, Seq<char>>(v@),
            Err(m) => env_value(key@, option_view(value)) == Err::<Seq<char>, Seq<char>>(m@),
        },
{
    if let Some(v) = value {
        let t = crate::text::trim_str(v.as_str());
        if t.len() > 0 {
            return Ok(v);
        }
    }
    let mut m = chars_of("Variabel environment ");
    crate::text::append_str(&mut m, key);
    crate::text::append_str(&mut m, " belum diisi.");
    Err(to_string(&m))
}


/// The plain-text messages that a run sends when it has no digest to deliver.
#[derive(Debug, Clone, Copy, PartialEq, Eq, Structural)]
pub enum Notice {
    /// Nothing new was collected.
    NoNewArticles,
    /// The analysis left no category with enough articles.
    NoCategoryQualified,
}

/// The text of a notice.
pub open spec fn notice_text_of(n: Notice) -> Seq<char> {
    match n {
        Notice::NoNewArticles => "\u{2705} Tech Radar test successful \u{2014} workflow executed, but no new relevant updates were found."@,
        Notice::NoCategoryQualified => "\u{2705} Tech Radar test successful \u{2014} workflow executed, but no category had at least 3 relevant updates."@,
    }
}

/// The text of a notice.
pub fn notice_text(n: Notice) -> (r: String)
    ensures
        r@ == notice_text_of(n),
{
    match n {
        Notice::NoNewArticles => String::from_str(
            "\u{2705} Tech Radar test successful \u{2014} workflow executed, but no new relevant updates were found.",
        ),
        Notice::NoCategoryQualified => String::from_str(
            "\u{2705} Tech Radar test successful \u{2014} workflow executed, but no category had at least 3 relevant updates.",
        ),
    }
}

/// Where a run stands.
#[derive(Debug, Clone, Copy, PartialEq, Eq, Structural)]
pub enum Stage {
    /// The new articles are selected; nothing was sent yet.
    Selected,
    /// The new articles are with the analysis step.
    Summarizing,
    /// The notice that nothing new was found is on its way.
    NotifyingNoNews,
    /// The notice that no category qualified is on its way.
    NotifyingNoCategory,
    /// The digest is on its way.
    Delivering,
    /// The new articles' URLs are being recorded as processed.
    Recording,
    /// The run is over.
    Finished,
}

/// What an outside step reports back to the run.
#[derive(Debug, Clone, Copy, PartialEq, Eq, Structural)]
pub enum Event {
    /// The run begins.
    Begin,
    /// The analysis succeeded and gave this many embeds.
    SummaryReady { embeds: usize },
    /// The analysis failed.
    SummaryFailed,
    /// The message was delivered.
    Delivered,
    /// The message could not be delivered.
    DeliveryFailed,
    /// The URLs were recorded.
    Recorded,
    /// The URLs could not be recorded.
    RecordFailed,
}

/// What the run asks of the outside world next.
#[derive(Debug, Clone, Copy, PartialEq, Eq, Structural)]
pub enum Action {
    /// Send a plain-text notice.
    SendNotice(Notice),
    /// Send the new articles to the analysis step.
    Summarize,
    /// Send the digest's embeds.
    SendDigest,
    /// Record the new articles' URLs as processed.
    RecordProcessed,
    /// Report the run's counts and whether delivery succeeded.
    Report { collected: usize, filtered: usize, analyzed: usize, delivered: bool },
    /// Report a dry run's counts: nothing was delivered or recorded.
    DryRunReport { collected: usize, filtered: usize, analyzed: usize, embeds: usize },
    /// End the run, successfully or not.
    Finish { ok: bool },
}

/// What a run knows from its start: the articles collected, the new ones among them, and
/// whether it is a dry run, which has the new articles analysed but delivers and records
/// nothing.
#[derive(Debug, Clone, Copy, PartialEq, Eq, Structural)]
pub struct RunCounts {
    pub collected: usize,
    pub filtered: usize,
    pub dry_run: bool,
}

/// Whether the environment asks for a dry run: `DRY_RUN` set to `true`.
pub fn is_dry_run(value: Option<String>) -> (r: bool)
    ensures
        r == (option_view(value) == Some("true"@)),
{
    match value {
        Some(v) => {
            let c = chars_of(v.as_str());
            let t = chars_of("true");
            crate::text::chars_eq(c.as_slice(), t.as_slice())
        },
        None => false,
    }
}

/// The stage that follows `stage` on `event`, and what the run does on the way: with nothing
/// new it sends a notice and ends; else it has the articles analysed, sends the digest (or,
/// where no category qualified, a notice), reports, and records the URLs only after a
/// successful delivery. A dry run reports its counts in place of sending anything and ends
/// without recording. A failure ends the run unsuccessfully; an event that does not fit the
/// stage does too.
pub open spec fn run_transition(stage: Stage, counts: RunCounts, event: Event) -> (Stage, Seq<Action>) {
    match (stage, event) {
        (Stage::Selected, Event::Begin) => if counts.filtered == 0 {
            if counts.dry_run {
                (
                    Stage::Finished,
                    seq![
                        Action::DryRunReport { collected: counts.collected, filtered: 0, analyzed: 0, embeds: 0 },
                        Action::Finish { ok: true },
                    ],
                )
            } else {
                (Stage::NotifyingNoNews, seq![Action::SendNotice(Notice::NoNewArticles)])
            }
        } else {
            (Stage::Summarizing, seq![Action::Summarize])
        },
        (Stage::Summarizing, Event::SummaryReady { embeds }) => if counts.dry_run {
            (
                Stage::Finished,
                seq![
                    Action::DryRunReport { collected: counts.collected, filtered: counts.filtered, analyzed: counts.filtered, embeds },
                    Action::Finish { ok: true },
                ],
            )
        } else if embeds == 0 {
            (Stage::NotifyingNoCategory, seq![Action::SendNotice(Notice::NoCategoryQualified)])
        } else {
            (Stage::Delivering, seq![Action::SendDigest])
        },
        (Stage::NotifyingNoNews, Event::Delivered) => (
            Stage::Finished,
            seq![
                Action::Report { collected: counts.collected, filtered: counts.filtered, analyzed: 0, delivered: true },
                Action::Finish { ok: true },
            ],
        ),
        (Stage::NotifyingNoNews, Event::DeliveryFailed) => (
            Stage::Finished,
            seq![
                Action::Report { collected: counts.collected, filtered: counts.filtered, analyzed: 0, delivered: false },
                Action::Finish { ok: false },
            ],
        ),
        (Stage::NotifyingNoCategory, Event::Delivered) | (Stage::Delivering, Event::Delivered) => (
            Stage::Recording,
            seq![
                Action::Report { collected: counts.collected, filtered: counts.filtered, analyzed: counts.filtered, delivered: true },
                Action::RecordProcessed,
            ],
        ),
        (Stage::NotifyingNoCategory, Event::DeliveryFailed) | (
            Stage::Delivering,
            Event::DeliveryFailed,
        ) => (
            Stage::Finished,
            seq![
                Action::Report { collected: counts.collected, filtered: counts.filtered, analyzed: counts.filtered, delivered: false },
                Action::Finish { ok: false },
            ],
        ),
        (Stage::Recording, Event::Recorded) => (Stage::Finished, seq![Action::Finish { ok: true }]),
        _ => (Stage::Finished, seq![Action::Finish { ok: false }]),
    }
}

fn report(counts: RunCounts, analyzed: usize, delivered: bool) -> (a: Action)
    ensures
        a == (Action::Report {
            collected: counts.collected,
            filtered: counts.filtered,
            analyzed,
            delivered,
        }),
{
    Action::Report { collected: counts.collected, filtered: counts.filtered, analyzed, delivered }
}

/// The stage that follows `stage` on `event`, and the actions to perform, in order.
pub fn run_step(stage: Stage, counts: RunCounts, event: Event) -> (r: (Stage, Vec<Action>))
    ensures
        (r.0, r.1@) == run_transition(stage, counts, event),
{
    let mut actions: Vec<Action> = Vec::new();
    let next = match (stage, event) {
        (Stage::Selected, Event::Begin) => {
            if counts.filtered == 0 {
                if counts.dry_run {
                    actions.push(
                        Action::DryRunReport {
                            collected: counts.collected,
                            filtered: 0,
                            analyzed: 0,
                            embeds: 0,
                        },
                    );
                    actions.push(Action::Finish { ok: true });
                    Stage::Finished
                } else {
                    actions.push(Action::SendNotice(Notice::NoNewArticles));
                    Stage::NotifyingNoNews
                }
            } else {
                actions.push(Action::Summarize);
                Stage::Summarizing
            }
        },
        (Stage::Summarizing, Event::SummaryReady { embeds }) => {
            if counts.dry_run {
                actions.push(
                    Action::DryRunReport {
                        collected: counts.collected,
                        filtered: counts.filtered,
                        analyzed: counts.filtered,
                        embeds,
                    },
                );
                actions.push(Action::Finish { ok: true });
                Stage::Finished
            } else if embeds == 0 {
                actions.push(Action::SendNotice(Notice::NoCategoryQualified));
                Stage::NotifyingNoCategory
            } else {
                actions.push(Action::SendDigest);
                Stage::Delivering
            }
        },
        (Stage::NotifyingNoNews, Event::Delivered) => {
            actions.push(report(counts, 0, true));
            actions.push(Action::Finish { ok: true });
            Stage::Finished
        },
        (Stage::NotifyingNoNews, Event::DeliveryFailed) => {
            actions.push(report(counts, 0, false));
            actions.push(Action::Finish { ok: false });
            Stage::Finished
        },
        (Stage::NotifyingNoCategory, Event::Delivered) | (Stage::Delivering, Event::Delivered) => {
            actions.push(report(counts, counts.filtered, true));
            actions.push(Action::RecordProcessed);
            Stage::Recording
        },
        (Stage::NotifyingNoCategory, Event::DeliveryFailed) | (
            Stage::Delivering,
            Event::DeliveryFailed,
        ) => {
            actions.push(report(counts, counts.filtered, false));
            actions.push(Action::Finish { ok: false });
            Stage::Finished
        },
        (Stage::Recording, Event::Recorded) => {
            actions.push(Action::Finish { ok: true });
            Stage::Finished
        },
        _ => {
            actions.push(Action::Finish { ok: false });
            Stage::Finished
        },
    };
    assert(actions@ =~= run_transition(stage, counts, event).1);
    (next, actions)
}


/// A run analyses at most the session's limit of articles, each of them collected and none
/// of them with a URL processed before.
pub proof fn lemma_new_articles_selection(collected: Seq<ArticleView>, processed: Seq<Seq<char>>)
    ensures
        new_articles(collected, processed).len() <= MAX_ARTICLES_PER_SESSION,
        forall|j: int|
            0 <= j < new_articles(collected, processed).len() ==> {
                let a = #[trigger] new_articles(collected, processed)[j];
                &&& collected.contains(a)
                &&& !processed.contains(a.url)
            },
{
    let m = collected.map_values(|a: ArticleView| unprocessed(a, processed));
    lemma_keep_some_elements(m);
    let all = keep_some(m);
    assert forall|j: int| 0 <= j < new_articles(collected, processed).len() implies {
        let a = #[trigger] new_articles(collected, processed)[j];
        &&& collected.contains(a)
        &&& !processed.contains(a.url)
    } by {
        assert(new_articles(collected, processed)[j] == all[j]);
        let i = choose|i: int| 0 <= i < m.len() && m[i] == Some(all[j]);
        assert(collected[i] == all[j]);
    }
}

/// A run records URLs as processed only right after a message was delivered, never when
/// nothing new was found, and after recording it ends.
pub proof fn lemma_record_only_after_delivery(stage: Stage, counts: RunCounts, event: Event)
    ensures
        run_transition(stage, counts, event).1.contains(Action::RecordProcessed) ==> {
            &&& event == Event::Delivered
            &&& (stage == Stage::NotifyingNoCategory || stage == Stage::Delivering)
            &&& run_transition(stage, counts, event).0 == Stage::Recording
        },
{
    let acts = run_transition(stage, counts, event).1;
    if acts.contains(Action::RecordProcessed) {
        let i = choose|i: int| 0 <= i < acts.len() && acts[i] == Action::RecordProcessed;
    }
}

/// A run with nothing new sends the notice that nothing new was found (a dry run only
/// reports its counts), and neither has anything analysed nor records anything.
pub proof fn lemma_nothing_new_nothing_analysed(counts: RunCounts)
    requires
        counts.filtered == 0,
    ensures
        !counts.dry_run ==> run_transition(Stage::Selected, counts, Event::Begin) == (
            Stage::NotifyingNoNews,
            seq![Action::SendNotice(Notice::NoNewArticles)],
        ),
        run_transition(Stage::NotifyingNoNews, counts, Event::Delivered).1 == seq![
            Action::Report { collected: counts.collected, filtered: 0, analyzed: 0, delivered: true },
            Action::Finish { ok: true },
        ],
        counts.dry_run ==> run_transition(Stage::Selected, counts, Event::Begin) == (
            Stage::Finished,
            seq![
                Action::DryRunReport { collected: counts.collected, filtered: 0, analyzed: 0, embeds: 0 },
                Action::Finish { ok: true },
            ],
        ),
{
}

/// A dry run delivers and records nothing: from the stages it passes through, every step
/// leads to one of them again, and none sends a notice or the digest or records a URL.
pub proof fn lemma_dry_run_delivers_nothing(stage: Stage, counts: RunCounts, event: Event)
    requires
        counts.dry_run,
        stage == Stage::Selected || stage == Stage::Summarizing || stage == Stage::Finished,
    ensures
        ({
            let (next, acts) = run_transition(stage, counts, event);
            &&& next == Stage::Summarizing || next == Stage::Finished
            &&& forall|i: int|
                0 <= i < acts.len() ==> !(#[trigger] acts[i] is SendNotice) && acts[i]
                    != Action::SendDigest && acts[i] != Action::RecordProcessed
        }),
{
}

/// How far a stage is from the end of a run: a bound on the steps that a run takes from it.
pub open spec fn stage_rank(s: Stage) -> nat {
    match s {
        Stage::Selected => 6,
        Stage::Summarizing => 5,
        Stage::NotifyingNoNews => 3,
        Stage::NotifyingNoCategory => 3,
        Stage::Delivering => 3,
        Stage::Recording => 1,
        Stage::Finished => 0,
    }
}

/// Each step moves a run forward: an unfinished run reaches a later stage on every event,
/// so a run takes at most six steps; a finished run ends at once, unsuccessfully, on any
/// further event.
pub proof fn lemma_runs_move_forward(stage: Stage, counts: RunCounts, event: Event)
    ensures
        stage != Stage::Finished ==> stage_rank(run_transition(stage, counts, event).0)
            < stage_rank(stage),
        stage == Stage::Finished ==> run_transition(stage, counts, event) == (
            Stage::Finished,
            seq![Action::Finish { ok: false }],
        ),
{
}

} // verus!
