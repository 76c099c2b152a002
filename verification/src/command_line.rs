//! Splitting the text of the "Launch new executable" entry into arguments.
//!
//! The parsing is deliberately simple. A line without quotes is cut at every space. Otherwise the
//! quote character that comes first, simple or double, cuts the whole line: the second piece (the
//! text between the first two quotes) is one argument as it stands, and each other piece is parsed
//! on its own. Nothing is trimmed and no empty argument is dropped.
use vstd::prelude::*;

verus! {

/// `s` cut at every occurrence of `c`, the separators dropped: one piece more than there are
/// separators.
pub open spec fn split_on(s: Seq<char>, c: char) -> Seq<Seq<char>>
    decreases s.len(),
{
    if s.len() == 0 {
        seq![s]
    } else {
        let rest = split_on(s.drop_first(), c);
        if s[0] == c {
            seq![Seq::empty()] + rest
        } else {
            rest.update(0, seq![s[0]] + rest[0])
        }
    }
}

/// Whether `c` is one of the two characters that quote an argument.
pub open spec fn is_quote(c: char) -> bool {
    c == '\'' || c == '"'
}

/// The quote character that comes first in `line`.
pub open spec fn first_quote(line: Seq<char>) -> Option<char>
    decreases line.len(),
{
    if line.len() == 0 {
        None
    } else if is_quote(line[0]) {
        Some(line[0])
    } else {
        first_quote(line.drop_first())
    }
}

/// The arguments that `line` holds.
pub open spec fn entry_args(line: Seq<char>) -> Seq<Seq<char>>
    decreases 2 * line.len() + 1, 0nat,
{
    match first_quote(line) {
        Some(quote) => {
            proof {
                lemma_first_quote(line);
            }
            quote_args(line, quote)
        },
        None => split_on(line, ' '),
    }
}

/// The arguments of `line` when `quote` cuts it: the text between the first two quotes is kept
/// whole, all else is parsed piece by piece.
pub open spec fn quote_args(line: Seq<char>, quote: char) -> Seq<Seq<char>>
    decreases
            (if line.contains(quote) {
                2 * line.len()
            } else {
                2 * line.len() + 2
            }),
            split_on(line, quote).len() + 1,
{
    piece_args(line, quote, split_on(line, quote).len())
}

/// The arguments that the first `n` pieces give when `quote` cuts `line`.
pub open spec fn piece_args(line: Seq<char>, quote: char, n: nat) -> Seq<Seq<char>>
    decreases
            (if line.contains(quote) {
                2 * line.len()
            } else {
                2 * line.len() + 2
            }),
            n,
{
    let pieces = split_on(line, quote);
    if n == 0 || n > pieces.len() {
        Seq::empty()
    } else {
        proof {
            lemma_split_lengths(line, quote);
        }
        let piece = pieces[n - 1];
        piece_args(line, quote, (n - 1) as nat) + if n - 1 == 1 {
            seq![piece]
        } else {
            entry_args(piece)
        }
    }
}

/// The texts of a sequence of strings.
pub open spec fn texts(strings: Seq<String>) -> Seq<Seq<char>> {
    Seq::new(strings.len(), |i: int| strings[i]@)
}

/// The texts of a sequence of string slices.
pub open spec fn slice_texts(slices: Seq<&str>) -> Seq<Seq<char>> {
    Seq::new(slices.len(), |i: int| slices[i]@)
}

/// No piece is longer than what was split, and each is shorter where something was cut out.
pub proof fn lemma_split_lengths(s: Seq<char>, c: char)
    ensures
        split_on(s, c).len() >= 1,
        forall|i: int|
            0 <= i < split_on(s, c).len() ==> (#[trigger] split_on(s, c)[i]).len() <= s.len(),
        s.contains(c) ==> forall|i: int|
            0 <= i < split_on(s, c).len() ==> (#[trigger] split_on(s, c)[i]).len() < s.len(),
    decreases s.len(),
{
    if s.len() > 0 {
        lemma_split_lengths(s.drop_first(), c);
        if s.contains(c) && s[0] != c {
            let i = choose|i: int| 0 <= i < s.len() && s[i] == c;
            assert(s.drop_first()[i - 1] == c);
        }
    }
}

/// The first quote of a line is a quote and occurs in it; a line without one holds no quote.
pub proof fn lemma_first_quote(line: Seq<char>)
    ensures
        first_quote(line) matches Some(quote) ==> line.contains(quote) && is_quote(quote),
        first_quote(line) is None ==> forall|i: int|
            0 <= i < line.len() ==> !is_quote(#[trigger] line[i]),
    decreases line.len(),
{
    if line.len() > 0 {
        let tail = line.drop_first();
        lemma_first_quote(tail);
        if is_quote(line[0]) {
            assert(line.contains(line[0]));
        } else if let Some(quote) = first_quote(tail) {
            let i = choose|i: int| 0 <= i < tail.len() && tail[i] == quote;
            assert(line[i + 1] == quote);
        } else {
            assert forall|i: int| 0 <= i < line.len() implies !is_quote(#[trigger] line[i]) by {
                if i > 0 {
                    assert(tail[i - 1] == line[i]);
                }
            }
        }
    }
}

/// Cutting at the first separator, which stands at `i`.
proof fn lemma_split_at_first(s: Seq<char>, c: char, i: int)
    requires
        0 <= i < s.len(),
        s[i] == c,
        forall|k: int| 0 <= k < i ==> s[k] != c,
    ensures
        split_on(s, c) == seq![s.take(i)] + split_on(s.skip(i + 1), c),
    decreases i,
{
    let tail = s.drop_first();
    if i == 0 {
        assert(s.skip(1) =~= tail);
        assert(s.take(0) =~= Seq::empty());
    } else {
        assert forall|k: int| 0 <= k < i - 1 implies tail[k] != c by {
            assert(tail[k] == s[k + 1]);
        }
        lemma_split_at_first(tail, c, i - 1);
        assert(tail.skip(i) =~= s.skip(i + 1));
        assert(seq![s[0]] + tail.take(i - 1) =~= s.take(i));
        assert(split_on(s, c) =~= seq![s.take(i)] + split_on(s.skip(i + 1), c));
    }
}

/// Without a separator nothing is cut.
proof fn lemma_split_none(s: Seq<char>, c: char)
    requires
        forall|k: int| 0 <= k < s.len() ==> s[k] != c,
    ensures
        split_on(s, c) == seq![s],
    decreases s.len(),
{
    if s.len() > 0 {
        let tail = s.drop_first();
        assert forall|k: int| 0 <= k < tail.len() implies tail[k] != c by {
            assert(tail[k] == s[k + 1]);
        }
        lemma_split_none(tail, c);
        assert(seq![s[0]] + tail =~= s);
        assert(split_on(s, c) =~= seq![s]);
    }
}

/// Every line gives at least one argument, the empty line too.
pub proof fn lemma_entry_args_nonempty(line: Seq<char>)
    ensures
        entry_args(line).len() >= 1,
    decreases 2 * line.len() + 1, 0nat,
{
    lemma_first_quote(line);
    if let Some(quote) = first_quote(line) {
        lemma_split_lengths(line, quote);
        lemma_piece_args_nonempty(line, quote, split_on(line, quote).len());
    } else {
        lemma_split_lengths(line, ' ');
    }
}

proof fn lemma_piece_args_nonempty(line: Seq<char>, quote: char, n: nat)
    requires
        line.contains(quote),
        1 <= n <= split_on(line, quote).len(),
    ensures
        piece_args(line, quote, n).len() >= 1,
    decreases 2 * line.len(), n,
{
    if n > 1 {
        lemma_piece_args_nonempty(line, quote, (n - 1) as nat);
    } else {
        lemma_split_lengths(line, quote);
        lemma_entry_args_nonempty(split_on(line, quote)[0]);
    }
}

/// The pieces of `line` between the occurrences of `c`.
fn split<'a>(line: &'a str, c: char) -> (pieces: Vec<&'a str>)
    ensures
        slice_texts(pieces@) == split_on(line@, c),
{
    let n: usize = line.unicode_len();
    let mut pieces: Vec<&'a str> = Vec::new();
    let mut start: usize = 0;
    let mut pos: usize = 0;
    assert(line@.skip(0) =~= line@);
    assert(slice_texts(pieces@) + split_on(line@, c) =~= split_on(line@, c));
    for ch in it: line.chars()
        invariant
            it.seq() == line@,
            pos == it.index(),
            n == line@.len(),
            start <= pos <= n,
            split_on(line@, c) == slice_texts(pieces@) + split_on(line@.skip(start as int), c),
            forall|k: int| start <= k < pos ==> line@[k] != c,
    {
        if ch == c {
            let ghost before = pieces@;
            let ghost rest = line@.skip(start as int);
            let piece = line.substring_char(start, pos);
            pieces.push(piece);
            proof {
                let i = pos - start;
                lemma_split_at_first(rest, c, i);
                assert(rest.take(i) =~= piece@);
                assert(rest.skip(i + 1) =~= line@.skip(pos + 1));
                assert(slice_texts(pieces@) =~= slice_texts(before).push(piece@));
                assert(split_on(line@, c) =~= slice_texts(pieces@) + split_on(
                    line@.skip(pos + 1),
                    c,
                ));
            }
            start = pos + 1;
        }
        pos = pos + 1;
    }
    let ghost before = pieces@;
    let piece = line.substring_char(start, n);
    pieces.push(piece);
    proof {
        let rest = line@.skip(start as int);
        lemma_split_none(rest, c);
        assert(piece@ =~= rest);
        assert(slice_texts(pieces@) =~= slice_texts(before) + seq![rest]);
    }
    pieces
}

/// The quote character that comes first in `line`.
fn find_quote(line: &str) -> (quote: Option<char>)
    ensures
        quote == first_quote(line@),
{
    let ghost mut pos: int = 0;
    assert(line@.skip(0) =~= line@);
    for ch in it: line.chars()
        invariant
            it.seq() == line@,
            pos == it.index(),
            first_quote(line@) == first_quote(line@.skip(pos)),
    {
        proof {
            assert(line@.skip(pos)[0] == ch);
            assert(line@.skip(pos).drop_first() =~= line@.skip(pos + 1));
        }
        if ch == '\'' || ch == '"' {
            return Some(ch);
        }
        proof {
            pos = pos + 1;
        }
    }
    None
}

/// The arguments of `line` when `quote` cuts it.
pub fn parse_quote(line: &str, quote: char) -> (args: Vec<String>)
    ensures
        texts(args@) == quote_args(line@, quote),
        args@.len() == quote_args(line@, quote).len(),
        forall|i: int|
            0 <= i < args@.len() ==> (#[trigger] args@[i])@ == quote_args(line@, quote)[i],
    decreases
            (if line@.contains(quote) {
                2 * line@.len()
            } else {
                2 * line@.len() + 2
            }),
{
    let pieces = split(line, quote);
    let ghost cut = split_on(line@, quote);
    let mut out_args: Vec<String> = Vec::new();
    let mut num: usize = 0;
    proof {
        lemma_split_lengths(line@, quote);
        assert(texts(out_args@) =~= Seq::empty());
    }
    while num < pieces.len()
        invariant
            num <= pieces.len(),
            cut == split_on(line@, quote),
            slice_texts(pieces@) == cut,
            pieces.len() == cut.len(),
            forall|i: int| 0 <= i < cut.len() ==> (#[trigger] cut[i]).len() <= line@.len(),
            line@.contains(quote) ==> forall|i: int|
                0 <= i < cut.len() ==> (#[trigger] cut[i]).len() < line@.len(),
            texts(out_args@) == piece_args(line@, quote, num as nat),
        decreases pieces.len() - num,
    {
        let ghost before = out_args@;
        let arg = pieces[num];
        assert(arg@ == cut[num as int]);
        if num != 1 {
            let mut inner = parse_entry(arg);
            let ghost added = inner@;
            out_args.append(&mut inner);
            assert(texts(out_args@) =~= texts(before) + texts(added));
        } else {
            out_args.push(arg.to_owned());
            assert(texts(out_args@) =~= texts(before) + seq![arg@]);
        }
        num = num + 1;
    }
    assert forall|i: int| 0 <= i < out_args@.len() implies (#[trigger] out_args@[i])@
        == quote_args(line@, quote)[i] by {
        assert(texts(out_args@)[i] == out_args@[i]@);
    }
    out_args
}

/// The arguments that `line` holds, of which there is always at least one.
pub fn parse_entry(line: &str) -> (args: Vec<String>)
    ensures
        texts(args@) == entry_args(line@),
        args@.len() >= 1,
        args@.len() == entry_args(line@).len(),
        forall|i: int| 0 <= i < args@.len() ==> (#[trigger] args@[i])@ == entry_args(line@)[i],
    decreases 2 * line@.len() + 1,
{
    proof {
        lemma_first_quote(line@);
        lemma_entry_args_nonempty(line@);
        assert(texts(Seq::<String>::empty()) =~= Seq::empty());
    }
    match find_quote(line) {
        Some(quote) => parse_quote(line, quote),
        None => {
            let words = split(line, ' ');
            let mut args: Vec<String> = Vec::new();
            let mut i: usize = 0;
            while i < words.len()
                invariant
                    i <= words.len(),
                    texts(args@) == slice_texts(words@).take(i as int),
                decreases words.len() - i,
            {
                let ghost before = args@;
                args.push(words[i].to_owned());
                proof {
                    assert(texts(args@) =~= texts(before).push(words@[i as int]@));
                    assert(slice_texts(words@).take(i + 1) =~= slice_texts(words@).take(
                        i as int,
                    ).push(words@[i as int]@));
                }
                i = i + 1;
            }
            assert(slice_texts(words@).take(words@.len() as int) =~= slice_texts(words@));
            assert forall|i: int| 0 <= i < args@.len() implies (#[trigger] args@[i])@
                == entry_args(line@)[i] by {
                assert(texts(args@)[i] == args@[i]@);
            }
            args
        },
    }
}

/// `pieces` with `c` between each two neighbours.
pub open spec fn join(pieces: Seq<Seq<char>>, c: char) -> Seq<char>
    decreases pieces.len(),
{
    if pieces.len() == 0 {
        Seq::empty()
    } else if pieces.len() == 1 {
        pieces[0]
    } else {
        pieces[0] + seq![c] + join(pieces.drop_first(), c)
    }
}

/// Splitting loses nothing but the separators: joined again, the pieces give the text back, and
/// no piece holds a separator.
pub proof fn lemma_join_of_split(s: Seq<char>, c: char)
    ensures
        join(split_on(s, c), c) == s,
        forall|i: int| 0 <= i < split_on(s, c).len() ==> !(#[trigger] split_on(s, c)[i]).contains(c),
    decreases s.len(),
{
    let pieces = split_on(s, c);
    if s.len() == 0 {
        assert(join(pieces, c) =~= s);
    } else {
        let rest = split_on(s.drop_first(), c);
        lemma_join_of_split(s.drop_first(), c);
        lemma_split_lengths(s.drop_first(), c);
        if s[0] == c {
            assert(pieces.drop_first() =~= rest);
            assert(join(pieces, c) =~= s);
        } else {
            assert(pieces.drop_first() =~= rest.drop_first());
            assert(join(pieces, c) =~= seq![s[0]] + join(rest, c));
            assert(join(pieces, c) =~= s);
            assert forall|i: int| 0 <= i < pieces.len() implies !(#[trigger] pieces[i]).contains(
                c,
            ) by {
                if i == 0 {
                    assert forall|k: int| 0 <= k < pieces[0].len() implies pieces[0][k] != c by {
                        if k > 0 {
                            assert(rest[0].contains(rest[0][k - 1]));
                        }
                    }
                }
            }
        }
    }
}

/// Splitting undoes joining: pieces that hold no separator come back as they were.
pub proof fn lemma_split_of_join(pieces: Seq<Seq<char>>, c: char)
    requires
        pieces.len() >= 1,
        forall|i: int| 0 <= i < pieces.len() ==> !(#[trigger] pieces[i]).contains(c),
    ensures
        split_on(join(pieces, c), c) == pieces,
    decreases pieces.len(),
{
    let s = join(pieces, c);
    let head = pieces[0];
    assert forall|k: int| 0 <= k < head.len() implies head[k] != c by {
        assert(head.contains(head[k]));
    }
    if pieces.len() == 1 {
        lemma_split_none(s, c);
        assert(pieces =~= seq![s]);
    } else {
        let rest = pieces.drop_first();
        assert forall|i: int| 0 <= i < rest.len() implies !(#[trigger] rest[i]).contains(c) by {
            assert(rest[i] == pieces[i + 1]);
        }
        lemma_split_of_join(rest, c);
        lemma_split_at_first(s, c, head.len() as int);
        assert(s.take(head.len() as int) =~= head);
        assert(s.skip(head.len() + 1int) =~= join(rest, c));
        assert(split_on(s, c) =~= pieces);
    }
}

/// Words without quotes or spaces, written one space apart, are parsed back into those words.
pub proof fn lemma_plain_words(words: Seq<Seq<char>>)
    requires
        words.len() >= 1,
        forall|i: int, k: int|
            0 <= i < words.len() && 0 <= k < words[i].len() ==> !is_quote(#[trigger] words[i][k])
                && words[i][k] != ' ',
    ensures
        entry_args(join(words, ' ')) == words,
{
    let line = join(words, ' ');
    lemma_join_without_quotes(words);
    lemma_first_quote(line);
    if let Some(quote) = first_quote(line) {
        let k = choose|k: int| 0 <= k < line.len() && line[k] == quote;
        assert(!is_quote(line[k]));
    }
    assert forall|i: int| 0 <= i < words.len() implies !(#[trigger] words[i]).contains(' ') by {
        if words[i].contains(' ') {
            let k = choose|k: int| 0 <= k < words[i].len() && words[i][k] == ' ';
            assert(words[i][k] != ' ');
        }
    }
    lemma_split_of_join(words, ' ');
}

proof fn lemma_join_without_quotes(words: Seq<Seq<char>>)
    requires
        forall|i: int, k: int|
            0 <= i < words.len() && 0 <= k < words[i].len() ==> !is_quote(#[trigger] words[i][k]),
    ensures
        forall|k: int|
            0 <= k < join(words, ' ').len() ==> !is_quote(#[trigger] join(words, ' ')[k]),
    decreases words.len(),
{
    if words.len() == 1 {
        assert forall|k: int| 0 <= k < words[0].len() implies !is_quote(#[trigger] words[0][k]) by {
        }
    } else if words.len() > 1 {
        let rest = words.drop_first();
        assert forall|i: int, k: int|
            0 <= i < rest.len() && 0 <= k < rest[i].len() implies !is_quote(
            #[trigger] rest[i][k],
        ) by {
            assert(!is_quote(words[i + 1][k]));
        }
        lemma_join_without_quotes(rest);
        let line = join(words, ' ');
        assert forall|k: int| 0 <= k < line.len() implies !is_quote(#[trigger] line[k]) by {
            let n = words[0].len();
            if k < n {
                assert(line[k] == words[0][k]);
            } else if k > n {
                assert(line[k] == join(rest, ' ')[k - n - 1]);
            }
        }
    }
}

proof fn lemma_first_quote_after(before: Seq<char>, quote: char, after: Seq<char>)
    requires
        is_quote(quote),
        forall|k: int| 0 <= k < before.len() ==> !is_quote(#[trigger] before[k]),
    ensures
        first_quote(before + seq![quote] + after) == Some(quote),
        first_quote(before) is None,
    decreases before.len(),
{
    let line = before + seq![quote] + after;
    if before.len() > 0 {
        let tail = before.drop_first();
        assert forall|k: int| 0 <= k < tail.len() implies !is_quote(#[trigger] tail[k]) by {
            assert(tail[k] == before[k + 1]);
        }
        lemma_first_quote_after(tail, quote, after);
        assert(line.drop_first() =~= tail + seq![quote] + after);
        assert(!is_quote(before[0]));
        assert(line[0] == before[0]);
    }
}

/// The arguments of the first pieces come first.
proof fn lemma_piece_args_prefix(line: Seq<char>, quote: char, n: nat, m: nat)
    requires
        n <= m <= split_on(line, quote).len(),
    ensures
        piece_args(line, quote, n).is_prefix_of(piece_args(line, quote, m)),
    decreases m,
{
    if n < m {
        lemma_piece_args_prefix(line, quote, n, (m - 1) as nat);
    }
}

/// Text between a quote and the next one like it is a single argument, spaces and the other quote
/// included. The words before it are the arguments before it, and, where no third such quote
/// follows, what comes after it is parsed as a line of its own.
pub proof fn lemma_quoted_argument(
    before: Seq<char>,
    quote: char,
    quoted: Seq<char>,
    after: Seq<char>,
)
    requires
        is_quote(quote),
        forall|k: int| 0 <= k < before.len() ==> !is_quote(#[trigger] before[k]),
        !quoted.contains(quote),
    ensures
        (split_on(before, ' ') + seq![quoted]).is_prefix_of(
            entry_args(before + seq![quote] + quoted + seq![quote] + after),
        ),
        !after.contains(quote) ==> entry_args(
            before + seq![quote] + quoted + seq![quote] + after,
        ) == split_on(before, ' ') + seq![quoted] + entry_args(after),
{
    let line = before + seq![quote] + quoted + seq![quote] + after;
    let inner = quoted + seq![quote] + after;
    assert(line =~= before + seq![quote] + inner);
    lemma_first_quote_after(before, quote, inner);
    lemma_split_at_first(line, quote, before.len() as int);
    assert(line.take(before.len() as int) =~= before);
    assert(line.skip(before.len() + 1int) =~= inner);
    assert forall|k: int| 0 <= k < quoted.len() implies inner[k] != quote by {
        assert(quoted.contains(quoted[k]));
    }
    lemma_split_at_first(inner, quote, quoted.len() as int);
    assert(inner.take(quoted.len() as int) =~= quoted);
    assert(inner.skip(quoted.len() + 1int) =~= after);
    lemma_split_lengths(after, quote);
    let pieces = split_on(line, quote);
    assert(pieces[0] == before);
    assert(pieces[1] == quoted);
    assert(piece_args(line, quote, 1) =~= entry_args(before)) by {
        assert(piece_args(line, quote, 0) =~= Seq::empty());
    }
    assert(piece_args(line, quote, 2) == split_on(before, ' ') + seq![quoted]);
    lemma_piece_args_prefix(line, quote, 2, pieces.len());
    if !after.contains(quote) {
        assert forall|k: int| 0 <= k < after.len() implies after[k] != quote by {
            assert(after.contains(after[k]));
        }
        lemma_split_none(after, quote);
        assert(pieces.len() == 3);
        assert(pieces[2] == after);
    }
}

/// A quote that is never closed makes one argument of all that follows it.
pub proof fn lemma_unclosed_quote(before: Seq<char>, quote: char, rest: Seq<char>)
    requires
        is_quote(quote),
        forall|k: int| 0 <= k < before.len() ==> !is_quote(#[trigger] before[k]),
        !rest.contains(quote),
    ensures
        entry_args(before + seq![quote] + rest) == split_on(before, ' ') + seq![rest],
{
    let line = before + seq![quote] + rest;
    lemma_first_quote_after(before, quote, rest);
    lemma_split_at_first(line, quote, before.len() as int);
    assert(line.take(before.len() as int) =~= before);
    assert(line.skip(before.len() + 1int) =~= rest);
    assert forall|k: int| 0 <= k < rest.len() implies rest[k] != quote by {
        assert(rest.contains(rest[k]));
    }
    lemma_split_none(rest, quote);
    let pieces = split_on(line, quote);
    assert(pieces =~= seq![before, rest]);
    assert(piece_args(line, quote, 1) =~= entry_args(before)) by {
        assert(piece_args(line, quote, 0) =~= Seq::empty());
    }
}

/// `s` without its quotes and spaces.
pub open spec fn kept(s: Seq<char>) -> Seq<char>
    decreases s.len(),
{
    if s.len() == 0 {
        s
    } else if is_quote(s[0]) || s[0] == ' ' {
        kept(s.drop_first())
    } else {
        seq![s[0]] + kept(s.drop_first())
    }
}

proof fn lemma_kept_concat(a: Seq<char>, b: Seq<char>)
    ensures
        kept(a + b) == kept(a) + kept(b),
    decreases a.len(),
{
    if a.len() == 0 {
        assert(a + b =~= b);
        assert(kept(a) + kept(b) =~= kept(b));
    } else {
        lemma_kept_concat(a.drop_first(), b);
        assert((a + b).drop_first() =~= a.drop_first() + b);
        assert(kept(a + b) =~= kept(a) + kept(b));
    }
}

proof fn lemma_kept_split(s: Seq<char>, c: char)
    requires
        is_quote(c) || c == ' ',
    ensures
        kept(split_on(s, c).flatten()) == kept(s),
    decreases s.len(),
{
    let pieces = split_on(s, c);
    if s.len() == 0 {
        pieces.lemma_flatten_one_element();
    } else {
        let rest = split_on(s.drop_first(), c);
        lemma_split_lengths(s.drop_first(), c);
        lemma_kept_split(s.drop_first(), c);
        if s[0] == c {
            assert(pieces.drop_first() =~= rest);
            assert(pieces.flatten() =~= rest.flatten());
        } else {
            assert(pieces.drop_first() =~= rest.drop_first());
            assert(pieces.flatten() =~= seq![s[0]] + rest.flatten());
            assert(pieces.flatten().drop_first() =~= rest.flatten());
        }
    }
}

proof fn lemma_kept_pieces(line: Seq<char>, quote: char, n: nat)
    requires
        line.contains(quote),
        n <= split_on(line, quote).len(),
    ensures
        kept(piece_args(line, quote, n).flatten()) == kept(
            split_on(line, quote).take(n as int).flatten(),
        ),
    decreases 2 * line.len(), n,
{
    let pieces = split_on(line, quote);
    if n == 0 {
        assert(pieces.take(0) =~= Seq::empty());
    } else {
        let piece = pieces[n - 1];
        let earlier = piece_args(line, quote, (n - 1) as nat);
        let own = if n - 1 == 1 {
            seq![piece]
        } else {
            entry_args(piece)
        };
        lemma_split_lengths(line, quote);
        lemma_kept_pieces(line, quote, (n - 1) as nat);
        if n - 1 == 1 {
            own.lemma_flatten_one_element();
        } else {
            lemma_only_quotes_and_spaces_dropped(piece);
        }
        assert(kept(own.flatten()) == kept(piece));
        vstd::seq_lib::lemma_flatten_concat(earlier, own);
        lemma_kept_concat(earlier.flatten(), own.flatten());
        assert(pieces.take(n as int) =~= pieces.take(n - 1).push(piece));
        pieces.take(n - 1).lemma_flatten_push(piece);
        lemma_kept_concat(pieces.take(n - 1).flatten(), piece);
    }
}

/// Parsing drops nothing but quotes and spaces, and keeps all else in its order.
pub proof fn lemma_only_quotes_and_spaces_dropped(line: Seq<char>)
    ensures
        kept(entry_args(line).flatten()) == kept(line),
    decreases 2 * line.len() + 1, 0nat,
{
    lemma_first_quote(line);
    if let Some(quote) = first_quote(line) {
        let pieces = split_on(line, quote);
        lemma_kept_pieces(line, quote, pieces.len());
        assert(pieces.take(pieces.len() as int) =~= pieces);
        lemma_kept_split(line, quote);
    } else {
        lemma_kept_split(line, ' ');
    }
}

/// Cutting undoes gluing: `first`, and then each of `parts` behind a separator, are the pieces.
proof fn lemma_split_glued(first: Seq<char>, c: char, parts: Seq<Seq<char>>)
    requires
        !first.contains(c),
        forall|i: int| 0 <= i < parts.len() ==> !(#[trigger] parts[i]).contains(c),
    ensures
        split_on(first + parts.map_values(|p: Seq<char>| seq![c] + p).flatten(), c) == seq![first]
            + parts,
    decreases parts.len(),
{
    let glue = |p: Seq<char>| seq![c] + p;
    let glued = parts.map_values(glue);
    let line = first + glued.flatten();
    assert forall|k: int| 0 <= k < first.len() implies first[k] != c by {
        assert(first.contains(first[k]));
    }
    if parts.len() == 0 {
        assert(line =~= first);
        lemma_split_none(line, c);
        assert(seq![first] + parts =~= seq![first]);
    } else {
        let rest = parts.drop_first();
        assert forall|i: int| 0 <= i < rest.len() implies !(#[trigger] rest[i]).contains(c) by {
            assert(rest[i] == parts[i + 1]);
        }
        assert(!parts[0].contains(c));
        lemma_split_glued(parts[0], c, rest);
        assert(glued.drop_first() =~= rest.map_values(glue));
        assert(glued.first() == seq![c] + parts[0]);
        let tail = parts[0] + rest.map_values(glue).flatten();
        assert(line =~= first + seq![c] + tail);
        lemma_split_at_first(line, c, first.len() as int);
        assert(line.take(first.len() as int) =~= first);
        assert(line.skip(first.len() + 1int) =~= tail);
        assert(seq![first] + (seq![parts[0]] + rest) =~= seq![first] + parts);
    }
}

/// However often `quote` cuts a line, the piece after the first quote is one argument as it
/// stands, and every other piece gives exactly the arguments that it gives as a line of its own.
/// The line is `first`, and then each of `parts` behind a quote.
pub proof fn lemma_pieces_parsed_alone(first: Seq<char>, quote: char, parts: Seq<Seq<char>>)
    requires
        !first.contains(quote),
        forall|i: int| 0 <= i < parts.len() ==> !(#[trigger] parts[i]).contains(quote),
    ensures
        parts.len() == 0 ==> quote_args(first, quote) == entry_args(first),
        parts.len() > 0 ==> quote_args(
            first + parts.map_values(|p: Seq<char>| seq![quote] + p).flatten(),
            quote,
        ) == entry_args(first) + seq![parts[0]] + parts.drop_first().map_values(
            |p: Seq<char>| entry_args(p),
        ).flatten(),
{
    let line = first + parts.map_values(|p: Seq<char>| seq![quote] + p).flatten();
    lemma_split_glued(first, quote, parts);
    let pieces = split_on(line, quote);
    assert(pieces[0] == first);
    if parts.len() == 0 {
        assert(line =~= first);
        assert(piece_args(line, quote, 0) =~= Seq::empty());
        assert(piece_args(line, quote, 1) =~= entry_args(first));
    } else {
        lemma_later_pieces(first, quote, parts, parts.len());
        assert(parts.subrange(1, parts.len() as int) =~= parts.drop_first());
    }
}

proof fn lemma_later_pieces(first: Seq<char>, quote: char, parts: Seq<Seq<char>>, n: nat)
    requires
        !first.contains(quote),
        forall|i: int| 0 <= i < parts.len() ==> !(#[trigger] parts[i]).contains(quote),
        1 <= n <= parts.len(),
    ensures
        piece_args(
            first + parts.map_values(|p: Seq<char>| seq![quote] + p).flatten(),
            quote,
            n + 1,
        ) == entry_args(first) + seq![parts[0]] + parts.subrange(1, n as int).map_values(
            |p: Seq<char>| entry_args(p),
        ).flatten(),
    decreases n,
{
    let line = first + parts.map_values(|p: Seq<char>| seq![quote] + p).flatten();
    let parse = |p: Seq<char>| entry_args(p);
    lemma_split_glued(first, quote, parts);
    let pieces = split_on(line, quote);
    assert(pieces[0] == first);
    assert(pieces[n as int] == parts[n - 1]);
    let head = entry_args(first) + seq![parts[0]];
    if n == 1 {
        assert(piece_args(line, quote, 0) =~= Seq::empty());
        assert(piece_args(line, quote, 1) =~= entry_args(first));
        let none = parts.subrange(1, 1).map_values(parse);
        assert(none.len() == 0);
        assert(piece_args(line, quote, 2) =~= head + none.flatten());
    } else {
        lemma_later_pieces(first, quote, parts, (n - 1) as nat);
        let earlier = parts.subrange(1, n - 1).map_values(parse);
        assert(parts.subrange(1, n as int).map_values(parse) =~= earlier.push(
            entry_args(parts[n - 1]),
        ));
        earlier.lemma_flatten_push(entry_args(parts[n - 1]));
        assert(piece_args(line, quote, n + 1) =~= head + earlier.flatten() + entry_args(
            parts[n - 1],
        ));
        assert(piece_args(line, quote, n + 1) =~= head + (earlier.flatten() + entry_args(
            parts[n - 1],
        )));
    }
}

/// A line with quotes, however many: what stands before the first quote is parsed as a line of its
/// own, what stands between it and the next quote like it (or the end of the line) is one argument
/// as it stands, and each later piece, however many more such quotes cut the rest, is parsed as a
/// line of its own. The line is `before`, a quote, `quoted`, and then each of `parts` behind a
/// quote.
pub proof fn lemma_quoted_line(
    before: Seq<char>,
    quote: char,
    quoted: Seq<char>,
    parts: Seq<Seq<char>>,
)
    requires
        quote == '\'' || quote == '"',
        !before.contains('\''),
        !before.contains('"'),
        !quoted.contains(quote),
        forall|i: int| 0 <= i < parts.len() ==> !(#[trigger] parts[i]).contains(quote),
    ensures
        entry_args(
            before + seq![quote] + quoted + parts.map_values(
                |p: Seq<char>| seq![quote] + p,
            ).flatten(),
        ) == entry_args(before) + seq![quoted] + parts.map_values(
            |p: Seq<char>| entry_args(p),
        ).flatten(),
{
    let glue = |p: Seq<char>| seq![quote] + p;
    let rest = quoted + parts.map_values(glue).flatten();
    let line = before + seq![quote] + quoted + parts.map_values(glue).flatten();
    let all = seq![quoted] + parts;
    assert forall|k: int| 0 <= k < before.len() implies !is_quote(#[trigger] before[k]) by {
        assert(before.contains(before[k]));
    }
    assert(line =~= before + seq![quote] + rest);
    lemma_first_quote_after(before, quote, rest);
    assert forall|i: int| 0 <= i < all.len() implies !(#[trigger] all[i]).contains(quote) by {
        if i > 0 {
            assert(all[i] == parts[i - 1]);
        }
    }
    assert(all.drop_first() =~= parts);
    assert(all.map_values(glue).drop_first() =~= parts.map_values(glue));
    assert(all.map_values(glue).first() == seq![quote] + quoted);
    assert(before + all.map_values(glue).flatten() =~= line);
    lemma_pieces_parsed_alone(before, quote, all);
}

/// The words of a line without quotes are its arguments: `first`, and then each of `words` behind
/// a space. Words may be empty.
pub proof fn lemma_unquoted_line(first: Seq<char>, words: Seq<Seq<char>>)
    requires
        !first.contains('\'') && !first.contains('"') && !first.contains(' '),
        forall|i: int|
            0 <= i < words.len() ==> !(#[trigger] words[i]).contains('\'') && !words[i].contains(
                '"',
            ) && !words[i].contains(' '),
    ensures
        entry_args(first + words.map_values(|w: Seq<char>| seq![' '] + w).flatten()) == seq![first]
            + words,
{
    let line = first + words.map_values(|w: Seq<char>| seq![' '] + w).flatten();
    lemma_split_glued(first, ' ', words);
    lemma_glued_lacks(first, '\'', words);
    lemma_glued_lacks(first, '"', words);
    lemma_first_quote(line);
}

proof fn lemma_glued_lacks(first: Seq<char>, c: char, words: Seq<Seq<char>>)
    requires
        c != ' ',
        !first.contains(c),
        forall|i: int| 0 <= i < words.len() ==> !(#[trigger] words[i]).contains(c),
    ensures
        !(first + words.map_values(|w: Seq<char>| seq![' '] + w).flatten()).contains(c),
    decreases words.len(),
{
    let glue = |w: Seq<char>| seq![' '] + w;
    let glued = words.map_values(glue);
    let line = first + glued.flatten();
    if words.len() == 0 {
        assert(line =~= first);
    } else {
        let rest = words.drop_first();
        assert forall|i: int| 0 <= i < rest.len() implies !(#[trigger] rest[i]).contains(c) by {
            assert(rest[i] == words[i + 1]);
        }
        assert(!words[0].contains(c));
        lemma_glued_lacks(words[0], c, rest);
        assert(glued.drop_first() =~= rest.map_values(glue));
        assert(glued.first() == seq![' '] + words[0]);
        let tail = words[0] + rest.map_values(glue).flatten();
        assert(line =~= first + seq![' '] + tail);
        assert forall|k: int| 0 <= k < line.len() implies line[k] != c by {
            if k < first.len() {
                assert(first.contains(line[k]));
            } else if k > first.len() {
                assert(tail[k - first.len() - 1] == line[k]);
                assert(tail.contains(line[k]));
            }
        }
    }
}

} // verus!
