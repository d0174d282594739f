//! Release notes for the "What's new" dialog.
//!
//! Notes are small hand-written Markdown fragments: headings, bullets, paragraphs, and
//! the odd `**bold**` or `` `code` `` run. They are parsed here into the blocks the
//! dialog draws.
use vstd::prelude::*;
use crate::text::{chars_of, find_from, occurs_at, split_on, split_vec, string_of, trim, trim_vec, views};

verus! {

/// A run of text with the emphasis it was written with.
#[derive(Debug, Clone, PartialEq, Eq)]
pub struct Span {
    pub text: String,
    pub strong: bool,
    pub code: bool,
}

/// One block of a release's notes.
#[derive(Debug, Clone, PartialEq, Eq)]
pub enum Block {
    Heading { level: u8, spans: Vec<Span> },
    Bullet(Vec<Span>),
    Paragraph(Vec<Span>),
    /// A gap between paragraphs; runs of empty lines collapse into one.
    Blank,
}

/// One release's notes, parsed.
#[derive(Debug, Clone, PartialEq, Eq)]
pub struct Entry {
    pub version: String,
    pub blocks: Vec<Block>,
}

/// Every version the user skipped past, newest first.
#[derive(Debug, Clone)]
pub struct Changelog {
    pub entries: Vec<Entry>,
}

/// A release's version and its notes as written.
#[derive(Debug, Clone)]
pub struct ReleaseNotes {
    pub version: String,
    pub notes: String,
}

/// A span as plain values: its text, whether it is bold, whether it is code.
pub type SpanView = (Seq<char>, bool, bool);

pub open spec fn span_view(s: Span) -> SpanView {
    (s.text@, s.strong, s.code)
}

pub open spec fn spans_view(v: Seq<Span>) -> Seq<SpanView> {
    v.map_values(|s: Span| span_view(s))
}

/// A block as plain values.
pub enum BlockView {
    Heading(u8, Seq<SpanView>),
    Bullet(Seq<SpanView>),
    Paragraph(Seq<SpanView>),
    Blank,
}

pub open spec fn block_view(b: Block) -> BlockView {
    match b {
        Block::Heading { level, spans } => BlockView::Heading(level, spans_view(spans@)),
        Block::Bullet(s) => BlockView::Bullet(spans_view(s@)),
        Block::Paragraph(s) => BlockView::Paragraph(spans_view(s@)),
        Block::Blank => BlockView::Blank,
    }
}

pub open spec fn blocks_view(v: Seq<Block>) -> Seq<BlockView> {
    v.map_values(|b: Block| block_view(b))
}

// ---------------------------------------------------------------------------------------
// Emphasis
// ---------------------------------------------------------------------------------------

/// The first position at or after `from` where `p` occurs in `t`, if any.
pub open spec fn find_spec(t: Seq<char>, p: Seq<char>, from: int) -> Option<int>
    decreases t.len() + 1 - from,
{
    if from < 0 || from + p.len() > t.len() {
        None
    } else if occurs_at(t, p, from) {
        Some(from)
    } else {
        find_spec(t, p, from + 1)
    }
}

pub proof fn lemma_find_bounds(t: Seq<char>, p: Seq<char>, from: int)
    ensures
        match find_spec(t, p, from) {
            Some(e) => from <= e && e + p.len() <= t.len() && occurs_at(t, p, e),
            None => true,
        },
    decreases t.len() + 1 - from,
{
    if !(from < 0 || from + p.len() > t.len()) && !occurs_at(t, p, from) {
        lemma_find_bounds(t, p, from + 1);
    }
}

pub proof fn lemma_find_is(t: Seq<char>, p: Seq<char>, from: int, e: int)
    requires
        0 <= from <= e,
        occurs_at(t, p, e),
        forall|j: int| from <= j < e ==> !occurs_at(t, p, j),
    ensures
        find_spec(t, p, from) == Some(e),
    decreases e - from,
{
    if from < e {
        assert(!occurs_at(t, p, from));
        lemma_find_is(t, p, from + 1, e);
    }
}

pub proof fn lemma_find_none(t: Seq<char>, p: Seq<char>, from: int)
    requires
        0 <= from,
        forall|j: int| from <= j ==> !occurs_at(t, p, j),
    ensures
        find_spec(t, p, from) is None,
    decreases t.len() + 1 - from,
{
    if from + p.len() <= t.len() {
        assert(!occurs_at(t, p, from));
        lemma_find_none(t, p, from + 1);
    }
}

/// The pending plain text as a span, if there is any.
pub open spec fn flush(plain: Seq<char>) -> Seq<SpanView> {
    if plain.len() > 0 {
        seq![(plain, false, false)]
    } else {
        Seq::empty()
    }
}

/// The spans of `t` from position `i` on, with `plain` the plain text gathered so far. A
/// `**` with a later `**` makes a bold span of what lies between; a backtick with a later
/// backtick makes a code span; everything else, unclosed markers included, is plain text.
pub open spec fn scan(t: Seq<char>, i: int, plain: Seq<char>) -> Seq<SpanView>
    decreases t.len() - i,
{
    if i < 0 || i >= t.len() {
        flush(plain)
    } else if occurs_at(t, "**"@, i) && find_spec(t, "**"@, i + 2) is Some {
        let e = find_spec(t, "**"@, i + 2)->0;
        proof {
            reveal_strlit("**");
            lemma_find_bounds(t, "**"@, i + 2);
        }
        flush(plain) + seq![(t.subrange(i + 2, e), true, false)] + scan(t, e + 2, Seq::empty())
    } else if t[i] == '`' && find_spec(t, "`"@, i + 1) is Some {
        let e = find_spec(t, "`"@, i + 1)->0;
        proof {
            reveal_strlit("`");
            lemma_find_bounds(t, "`"@, i + 1);
        }
        flush(plain) + seq![(t.subrange(i + 1, e), false, true)] + scan(t, e + 1, Seq::empty())
    } else {
        scan(t, i + 1, plain.push(t[i]))
    }
}

pub open spec fn spans_spec(t: Seq<char>) -> Seq<SpanView> {
    scan(t, 0, Seq::empty())
}

fn emphasised(text: &[char], strong: bool, code: bool) -> (r: Span)
    ensures
        span_view(r) == (text@, strong, code),
{
    Span { text: string_of(text), strong, code }
}

fn push_plain(spans: &mut Vec<Span>, plain: &mut Vec<char>)
    ensures
        spans_view(final(spans)@) == spans_view(old(spans)@) + flush(old(plain)@),
        final(plain)@.len() == 0,
{
    if plain.len() > 0 {
        let s = emphasised(plain, false, false);
        spans.push(s);
        *plain = Vec::new();
        assert(spans_view(spans@) =~= spans_view(old(spans)@) + flush(old(plain)@));
    } else {
        assert(spans_view(spans@) =~= spans_view(old(spans)@) + flush(old(plain)@));
    }
}

/// Splits a line into spans on `**bold**` and `` `code` `` runs; anything else, unclosed
/// markers included, stays literal.
pub fn spans(text: &[char]) -> (r: Vec<Span>)
    ensures
        spans_view(r@) == spans_spec(text@),
{
    let t = text;
    let n = t.len();
    let stars = chars_of("**");
    let tick = chars_of("`");
    proof {
        reveal_strlit("**");
        reveal_strlit("`");
    }
    let mut out: Vec<Span> = Vec::new();
    let mut plain: Vec<char> = Vec::new();
    let mut i: usize = 0;
    while i < n
        invariant
            n == t@.len(),
            i <= n,
            stars@ == "**"@,
            tick@ == "`"@,
            stars@.len() == 2,
            tick@.len() == 1,
            spans_spec(t@) == spans_view(out@) + scan(t@, i as int, plain@),
        decreases n - i,
    {
        if occurs_at_exec_pub(t, &stars, i) {
            match find_from(t, &stars, i + 2) {
                Some(e) => {
                    proof {
                        lemma_find_is(t@, "**"@, i + 2, e as int);
                    }
                    let ghost before = spans_view(out@);
                    let ghost pl = plain@;
                    push_plain(&mut out, &mut plain);
                    let inner = crate::ingest::slice_to(&crate::ingest::slice_from(t, i + 2), e - (i + 2));
                    assert(inner@ =~= t@.subrange(i + 2, e as int));
                    out.push(emphasised(&inner, true, false));
                    let ghost piece = seq![(t@.subrange(i + 2, e as int), true, false)];
                    assert(spans_view(out@) =~= before + flush(pl) + piece);
                    assert(scan(t@, i as int, pl) == flush(pl) + piece + scan(t@, e + 2, Seq::empty()));
                    assert(before + (flush(pl) + piece + scan(t@, e + 2, Seq::empty())) =~= spans_view(out@)
                        + scan(t@, e + 2, Seq::empty()));
                    i = e + 2;
                    assert(plain@ =~= Seq::<char>::empty());
                    continue;
                },
                None => {
                    proof {
                        lemma_find_none(t@, "**"@, i + 2);
                    }
                },
            }
        }
        if t[i] == '`' {
            match find_from(t, &tick, i + 1) {
                Some(e) => {
                    proof {
                        lemma_find_is(t@, "`"@, i + 1, e as int);
                    }
                    let ghost before = spans_view(out@);
                    let ghost pl = plain@;
                    push_plain(&mut out, &mut plain);
                    let inner = crate::ingest::slice_to(&crate::ingest::slice_from(t, i + 1), e - (i + 1));
                    assert(inner@ =~= t@.subrange(i + 1, e as int));
                    out.push(emphasised(&inner, false, true));
                    let ghost piece = seq![(t@.subrange(i + 1, e as int), false, true)];
                    assert(spans_view(out@) =~= before + flush(pl) + piece);
                    assert(scan(t@, i as int, pl) == flush(pl) + piece + scan(t@, e + 1, Seq::empty()));
                    assert(before + (flush(pl) + piece + scan(t@, e + 1, Seq::empty())) =~= spans_view(out@)
                        + scan(t@, e + 1, Seq::empty()));
                    i = e + 1;
                    assert(plain@ =~= Seq::<char>::empty());
                    continue;
                },
                None => {
                    proof {
                        lemma_find_none(t@, "`"@, i + 1);
                    }
                },
            }
        }
        plain.push(t[i]);
        i += 1;
    }
    push_plain(&mut out, &mut plain);
    out
}

fn occurs_at_exec_pub(s: &[char], p: &[char], i: usize) -> (r: bool)
    ensures
        r == occurs_at(s@, p@, i as int),
{
    crate::text::occurs_at_exec(s, p, i)
}

// ---------------------------------------------------------------------------------------
// Lines
// ---------------------------------------------------------------------------------------

/// How many `#` a line starts with.
pub open spec fn leading_hashes(s: Seq<char>) -> nat
    decreases s.len(),
{
    if s.len() > 0 && s[0] == '#' {
        1 + leading_hashes(s.drop_first())
    } else {
        0
    }
}

/// `## Heading`: one to six `#` and a space, so that a `#tag` stays plain text. Gives the
/// level and the trimmed heading text.
pub open spec fn heading_spec(line: Seq<char>) -> Option<(u8, Seq<char>)> {
    let h = leading_hashes(line);
    if h == 0 || h > 6 {
        None
    } else {
        let rest = line.skip(h as int);
        if rest.len() > 0 && rest[0] == ' ' {
            Some((h as u8, trim(rest.skip(1))))
        } else {
            None
        }
    }
}

/// `- item` or `* item`: gives the trimmed item text.
pub open spec fn bullet_spec(line: Seq<char>) -> Option<Seq<char>> {
    if line.len() >= 2 && (line[0] == '-' || line[0] == '*') && line[1] == ' ' {
        Some(trim(line.skip(2)))
    } else {
        None
    }
}

pub fn heading(line: &[char]) -> (r: Option<(u8, Vec<char>)>)
    ensures
        match heading_spec(line@) {
            Some((level, text)) => match r {
                Some((l, t)) => l == level && t@ == text,
                None => false,
            },
            None => r is None,
        },
{
    let mut h: usize = 0;
    assert(line@.skip(0) =~= line@);
    while h < line.len() && h < 7 && line[h] == '#'
        invariant
            h <= line.len(),
            h <= 7,
            forall|k: int| 0 <= k < h ==> line@[k] == '#',
            leading_hashes(line@) == h + leading_hashes(line@.skip(h as int)),
        decreases line.len() - h,
    {
        assert(line@.skip(h as int).drop_first() =~= line@.skip(h + 1));
        h += 1;
    }
    proof {
        if h < 7 {
            assert(leading_hashes(line@.skip(h as int)) == 0) by {
                if line@.skip(h as int).len() > 0 {
                    assert(line@.skip(h as int)[0] == line@[h as int]);
                }
            }
        }
    }
    if h == 0 || h > 6 {
        return None;
    }
    if h < line.len() && line[h] == ' ' {
        let rest = crate::ingest::slice_from(line, h + 1);
        let text = trim_vec(&rest);
        assert(line@.skip(h as int).skip(1) =~= rest@);
        assert(line@.skip(h as int)[0] == line@[h as int]);
        Some((h as u8, text))
    } else {
        proof {
            if line@.skip(h as int).len() > 0 {
                assert(line@.skip(h as int)[0] == line@[h as int]);
            }
        }
        None
    }
}

pub fn bullet(line: &[char]) -> (r: Option<Vec<char>>)
    ensures
        match bullet_spec(line@) {
            Some(text) => r is Some && r->0@ == text,
            None => r is None,
        },
{
    if line.len() >= 2 && (line[0] == '-' || line[0] == '*') && line[1] == ' ' {
        let rest = crate::ingest::slice_from(line, 2);
        Some(trim_vec(&rest))
    } else {
        None
    }
}

pub open spec fn is_blank(b: BlockView) -> bool {
    b matches BlockView::Blank
}

/// The blocks of `lines`, before trailing gaps are dropped. Each line is trimmed; an
/// empty line is a gap unless the blocks so far are empty or already end with one.
pub open spec fn blocks_of(lines: Seq<Seq<char>>) -> Seq<BlockView>
    decreases lines.len(),
{
    if lines.len() == 0 {
        Seq::empty()
    } else {
        let acc = blocks_of(lines.drop_last());
        let line = trim(lines.last());
        if line.len() == 0 {
            if acc.len() == 0 || is_blank(acc.last()) {
                acc
            } else {
                acc.push(BlockView::Blank)
            }
        } else {
            match heading_spec(line) {
                Some((level, text)) => acc.push(BlockView::Heading(level, spans_spec(text))),
                None => match bullet_spec(line) {
                    Some(text) => acc.push(BlockView::Bullet(spans_spec(text))),
                    None => acc.push(BlockView::Paragraph(spans_spec(line))),
                },
            }
        }
    }
}

pub open spec fn drop_trailing_gaps(bs: Seq<BlockView>) -> Seq<BlockView>
    decreases bs.len(),
{
    if bs.len() > 0 && is_blank(bs.last()) {
        drop_trailing_gaps(bs.drop_last())
    } else {
        bs
    }
}

/// The blocks of release notes whose lines are separated by `\n` (a `\r` before it is
/// whitespace, and trimmed like any other).
pub open spec fn parse_spec(markdown: Seq<char>) -> Seq<BlockView> {
    drop_trailing_gaps(blocks_of(split_on(markdown, '\n')))
}

fn block_is_blank(b: &Block) -> (r: bool)
    ensures
        r == is_blank(block_view(*b)),
{
    match b {
        Block::Blank => true,
        _ => false,
    }
}

pub fn parse(markdown: &str) -> (r: Vec<Block>)
    ensures
        blocks_view(r@) == parse_spec(markdown@),
{
    let md = chars_of(markdown);
    let lines = split_vec(&md, '\n');
    let mut blocks: Vec<Block> = Vec::new();
    let mut i: usize = 0;
    while i < lines.len()
        invariant
            i <= lines.len(),
            views(lines@) == split_on(markdown@, '\n'),
            blocks_view(blocks@) == blocks_of(views(lines@).take(i as int)),
        decreases lines.len() - i,
    {
        let ghost pre = views(lines@).take(i as int);
        assert(views(lines@).take(i + 1).drop_last() =~= pre);
        assert(views(lines@).take(i + 1).last() == lines@[i as int]@);
        let ghost acc = blocks_view(blocks@);
        let line = trim_vec(&lines[i]);
        if line.len() == 0 {
            let n = blocks.len();
            if n > 0 && !block_is_blank(&blocks[n - 1]) {
                blocks.push(Block::Blank);
                assert(blocks_view(blocks@) =~= acc.push(BlockView::Blank));
            } else {
                assert(n > 0 ==> acc.last() == block_view(blocks@[n - 1]));
            }
        } else {
            match heading(&line) {
                Some((level, text)) => {
                    let sp = spans(&text);
                    blocks.push(Block::Heading { level, spans: sp });
                    assert(blocks_view(blocks@) =~= acc.push(BlockView::Heading(level, spans_spec(text@))));
                },
                None => match bullet(&line) {
                    Some(text) => {
                        let sp = spans(&text);
                        blocks.push(Block::Bullet(sp));
                        assert(blocks_view(blocks@) =~= acc.push(BlockView::Bullet(spans_spec(text@))));
                    },
                    None => {
                        let sp = spans(&line);
                        blocks.push(Block::Paragraph(sp));
                        assert(blocks_view(blocks@) =~= acc.push(BlockView::Paragraph(spans_spec(line@))));
                    },
                },
            }
        }
        i += 1;
    }
    assert(views(lines@).take(lines.len() as int) =~= views(lines@));
    while blocks.len() > 0 && block_is_blank(&blocks[blocks.len() - 1])
        invariant
            drop_trailing_gaps(blocks_view(blocks@)) == parse_spec(markdown@),
        decreases blocks.len(),
    {
        let ghost before = blocks_view(blocks@);
        blocks.pop();
        assert(blocks_view(blocks@) =~= before.drop_last());
    }
    blocks
}

impl Changelog {
    /// The changelog of the given releases, in the order given.
    pub fn from_releases(releases: Vec<ReleaseNotes>) -> (r: Changelog)
        ensures
            r.entries@.len() == releases@.len(),
            forall|k: int|
                0 <= k < releases@.len() ==> {
                    &&& (#[trigger] r.entries@[k]).version@ == releases@[k].version@
                    &&& blocks_view(r.entries@[k].blocks@) == parse_spec(releases@[k].notes@)
                },
    {
        let mut entries: Vec<Entry> = Vec::new();
        let mut i: usize = 0;
        while i < releases.len()
            invariant
                i <= releases@.len(),
                entries@.len() == i,
                forall|k: int|
                    0 <= k < i ==> {
                        &&& (#[trigger] entries@[k]).version@ == releases@[k].version@
                        &&& blocks_view(entries@[k].blocks@) == parse_spec(releases@[k].notes@)
                    },
            decreases releases@.len() - i,
        {
            let r = &releases[i];
            entries.push(Entry { version: crate::text::owned(r.version.as_str()), blocks: parse(r.notes.as_str()) });
            i += 1;
        }
        Changelog { entries }
    }
}

// ---------------------------------------------------------------------------------------
// What the layout promises
// ---------------------------------------------------------------------------------------

/// No gap directly follows another, and the blocks do not start with one.
pub open spec fn gaps_collapsed(bs: Seq<BlockView>) -> bool {
    &&& (bs.len() > 0 ==> !is_blank(bs[0]))
    &&& forall|k: int| 0 <= k < bs.len() - 1 ==> !(is_blank(#[trigger] bs[k]) && is_blank(bs[k + 1]))
}

proof fn lemma_blocks_collapsed(lines: Seq<Seq<char>>)
    ensures
        gaps_collapsed(blocks_of(lines)),
    decreases lines.len(),
{
    if lines.len() > 0 {
        lemma_blocks_collapsed(lines.drop_last());
        let acc = blocks_of(lines.drop_last());
        let r = blocks_of(lines);
        assert forall|k: int| 0 <= k < r.len() - 1 implies !(is_blank(#[trigger] r[k]) && is_blank(r[k + 1])) by {
            if k < acc.len() - 1 {
                assert(r[k] == acc[k] && r[k + 1] == acc[k + 1]);
            } else if k == acc.len() - 1 && r.len() > acc.len() {
                assert(r[k] == acc.last());
            }
        }
        if r.len() > 0 && acc.len() > 0 {
            assert(r[0] == acc[0]);
        }
    }
}

proof fn lemma_drop_gaps(bs: Seq<BlockView>)
    requires
        gaps_collapsed(bs),
    ensures
        gaps_collapsed(drop_trailing_gaps(bs)),
        drop_trailing_gaps(bs).len() > 0 ==> !is_blank(drop_trailing_gaps(bs).last()),
    decreases bs.len(),
{
    if bs.len() > 0 && is_blank(bs.last()) {
        let d = bs.drop_last();
        assert forall|k: int| 0 <= k < d.len() - 1 implies !(is_blank(#[trigger] d[k]) && is_blank(d[k + 1])) by {
            assert(d[k] == bs[k] && d[k + 1] == bs[k + 1]);
        }
        if d.len() > 0 {
            assert(d[0] == bs[0]);
        }
        lemma_drop_gaps(d);
    }
}

/// Runs of empty lines collapse into one gap, and the notes neither start nor end with
/// a gap.
pub proof fn law_gaps_collapse_and_edges_trimmed(markdown: Seq<char>)
    ensures
        gaps_collapsed(parse_spec(markdown)),
        parse_spec(markdown).len() > 0 ==> !is_blank(parse_spec(markdown).last()),
{
    lemma_blocks_collapsed(split_on(markdown, '\n'));
    lemma_drop_gaps(blocks_of(split_on(markdown, '\n')));
}

} // verus!
