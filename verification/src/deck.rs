//! Building a deck of cards from the text of an input file.
//!
//! The text is split into lines at `\n`, a `\r` directly before the `\n`
//! belonging to the line ending; a trailing line ending yields no extra empty
//! line. Each line goes through the record parser: good lines become cards,
//! in text order, and each bad line becomes one warning naming its 1-based
//! line number, never aborting the load.

use vstd::prelude::*;
use vstd::string::StrSliceExecFns;

use crate::card::Card;
use crate::card::CardFromStrError;
use crate::card::parse_line;

verus! {

/// A line ending's `\r`, stripped from a line that was cut at a `\n`.
pub open spec fn strip_cr(line: Seq<char>) -> Seq<char> {
    if line.len() > 0 && line.last() == '\r' {
        line.drop_last()
    } else {
        line
    }
}

/// The lines of `s` after the characters of `cur` — the current, still
/// unterminated line. Each `\n` ends a line; a final unterminated line
/// counts only if it is non-empty, so a trailing line ending adds nothing.
pub open spec fn lines_acc(s: Seq<char>, cur: Seq<char>) -> Seq<Seq<char>>
    decreases s.len(),
{
    if s.len() == 0 {
        if cur.len() == 0 {
            seq![]
        } else {
            seq![cur]
        }
    } else if s[0] == '\n' {
        seq![strip_cr(cur)] + lines_acc(s.drop_first(), seq![])
    } else {
        lines_acc(s.drop_first(), cur.push(s[0]))
    }
}

/// The lines of a text, split at line endings (`\n` or `\r\n`), the final
/// line ending optional.
pub open spec fn lines_of(s: Seq<char>) -> Seq<Seq<char>> {
    lines_acc(s, seq![])
}

/// Splitting off the first line at once: with no `\n` among the first `k`
/// characters, the pending line runs to the `\n` at `k` — or to the end of
/// the text, where there is none.
proof fn lemma_lines_acc_cut(s: Seq<char>, cur: Seq<char>, k: int)
    requires
        0 <= k <= s.len(),
        forall|j: int| 0 <= j < k ==> s[j] != '\n',
        k < s.len() ==> s[k] == '\n',
    ensures
        lines_acc(s, cur) == if k == s.len() {
            if cur.len() + s.len() == 0 {
                Seq::<Seq<char>>::empty()
            } else {
                seq![cur + s]
            }
        } else {
            seq![strip_cr(cur + s.take(k))] + lines_acc(s.skip(k + 1), seq![])
        },
    decreases k,
{
    if k == 0 {
        if s.len() == 0 {
            assert(cur + s =~= cur);
        } else if k == s.len() {
            assert(cur + s =~= cur);
        } else {
            assert(cur + s.take(0) =~= cur);
            assert(s.skip(1) =~= s.drop_first());
        }
    } else {
        assert(forall|j: int| 0 <= j < k - 1 ==> s.drop_first()[j] == s[j + 1]);
        lemma_lines_acc_cut(s.drop_first(), cur.push(s[0]), k - 1);
        if k == s.len() {
            assert(cur.push(s[0]) + s.drop_first() =~= cur + s);
            assert(cur.len() + s.len() > 0);
        } else {
            assert(cur.push(s[0]) + s.drop_first().take(k - 1) =~= cur + s.take(k));
            assert(s.drop_first().skip(k) =~= s.skip(k + 1));
        }
    }
}

/// The characters of each line of `v`.
pub open spec fn line_views(v: Seq<String>) -> Seq<Seq<char>> {
    v.map_values(|l: String| l@)
}

/// Split a text into its lines, as [`lines_of`] states them.
pub fn split_lines(s: &str) -> (r: Vec<String>)
    ensures
        line_views(r@) == lines_of(s@),
{
    let n = s.unicode_len();
    let mut r: Vec<String> = Vec::new();
    let mut start: usize = 0;
    proof {
        assert(s@.skip(0) =~= s@);
        assert(line_views(r@) + lines_acc(s@, seq![]) =~= lines_acc(s@, seq![]));
    }
    while start < n
        invariant
            n == s@.len(),
            start <= n,
            lines_of(s@) == line_views(r@) + lines_acc(s@.skip(start as int), seq![]),
        decreases n - start,
    {
        let mut k: usize = start;
        while k < n && s.get_char(k) != '\n'
            invariant
                n == s@.len(),
                start <= k <= n,
                forall|j: int| start <= j < k ==> s@[j] != '\n',
            decreases n - k,
        {
            k = k + 1;
        }
        proof {
            let rem = s@.skip(start as int);
            assert(forall|j: int| 0 <= j < k - start ==> rem[j] == s@[j + start]);
            lemma_lines_acc_cut(rem, seq![], k - start);
        }
        let line = if k < n && k > start && s.get_char(k - 1) == '\r' {
            s.substring_char(start, k - 1)
        } else {
            s.substring_char(start, k)
        };
        let owned = line.to_owned();
        proof {
            let rem = s@.skip(start as int);
            if k < n {
                assert(Seq::<char>::empty() + rem.take(k - start) =~= s@.subrange(
                    start as int,
                    k as int,
                ));
                assert(strip_cr(s@.subrange(start as int, k as int)) == owned@);
                assert(rem.skip(k - start + 1) =~= s@.skip(k + 1));
            } else {
                assert(Seq::<char>::empty() + rem =~= s@.subrange(start as int, n as int));
                assert(rem.len() > 0);
            }
            assert(line_views(r@.push(owned)) =~= line_views(r@).push(owned@));
        }
        r.push(owned);
        proof {
            if k < n {
                assert(lines_of(s@) =~= line_views(r@) + lines_acc(s@.skip(k + 1), seq![]));
            } else {
                assert(lines_acc(s@.skip(n as int), seq![]) =~= Seq::<Seq<char>>::empty());
                assert(lines_of(s@) =~= line_views(r@) + lines_acc(s@.skip(n as int), seq![]));
            }
        }
        if k < n {
            start = k + 1;
        } else {
            start = n;
        }
    }
    proof {
        assert(s@.skip(n as int) =~= Seq::<char>::empty());
        assert(lines_of(s@) =~= line_views(r@));
    }
    r
}

/// One skipped input line: its 1-based line number and the parse failure.
#[derive(Debug, Clone, Copy, PartialEq, Eq, Structural)]
pub struct LoadWarning {
    /// 1-based number of the offending line in the input text.
    pub line: usize,
    /// Why the line was refused.
    pub error: CardFromStrError,
}

/// The fields of each card, word before translation.
pub open spec fn card_views(cards: Seq<Card>) -> Seq<(Seq<char>, Seq<char>)> {
    cards.map_values(|c: Card| (c.word@, c.translation@))
}

/// The line number and failure of each warning.
pub open spec fn warning_views(ws: Seq<LoadWarning>) -> Seq<(int, CardFromStrError)> {
    ws.map_values(|w: LoadWarning| (w.line as int, w.error))
}

/// The fields of the cards that the given lines yield, in line order, the
/// lines that fail to parse left out.
pub open spec fn kept_cards(lines: Seq<Seq<char>>) -> Seq<(Seq<char>, Seq<char>)>
    decreases lines.len(),
{
    if lines.len() == 0 {
        seq![]
    } else {
        let rest = kept_cards(lines.drop_last());
        match parse_line(lines.last()) {
            Result::Ok(fields) => rest.push(fields),
            Result::Err(_) => rest,
        }
    }
}

/// One warning per line that fails to parse, in line order, each carrying
/// the line's 1-based number and its failure.
pub open spec fn warnings_of(lines: Seq<Seq<char>>) -> Seq<(int, CardFromStrError)>
    decreases lines.len(),
{
    if lines.len() == 0 {
        seq![]
    } else {
        let rest = warnings_of(lines.drop_last());
        match parse_line(lines.last()) {
            Result::Ok(_) => rest,
            Result::Err(e) => rest.push((lines.len() as int, e)),
        }
    }
}

/// Build the deck from the text of an input file.
///
/// Every line that parses becomes a card, in text order; every line that
/// does not becomes a warning with its 1-based line number. A bad line never
/// aborts the load, and an empty text yields an empty deck.
pub fn load_cards(text: &str) -> (r: (Vec<Card>, Vec<LoadWarning>))
    ensures
        card_views(r.0@) == kept_cards(lines_of(text@)),
        warning_views(r.1@) == warnings_of(lines_of(text@)),
        forall|i: int| 0 <= i < r.0@.len() ==> r.0@[i].wf(),
{
    let lines = split_lines(text);
    let mut cards: Vec<Card> = Vec::new();
    let mut warnings: Vec<LoadWarning> = Vec::new();
    let ghost lv = lines_of(text@);
    proof {
        assert(card_views(cards@) =~= kept_cards(lv.take(0)));
        assert(warning_views(warnings@) =~= warnings_of(lv.take(0)));
    }
    let mut i: usize = 0;
    while i < lines.len()
        invariant
            line_views(lines@) == lv,
            i <= lines@.len(),
            card_views(cards@) == kept_cards(lv.take(i as int)),
            warning_views(warnings@) == warnings_of(lv.take(i as int)),
            forall|j: int| 0 <= j < cards@.len() ==> cards@[j].wf(),
        decreases lines@.len() - i,
    {
        proof {
            assert(lv.take(i + 1).drop_last() =~= lv.take(i as int));
            assert(lv[i as int] == lines@[i as int]@);
        }
        match Card::from_str(lines[i].as_str()) {
            Ok(card) => {
                cards.push(card);
                proof {
                    assert(card_views(cards@) =~= kept_cards(lv.take(i + 1)));
                }
            },
            Err(e) => {
                warnings.push(LoadWarning { line: i + 1, error: e });
                proof {
                    assert(warning_views(warnings@) =~= warnings_of(lv.take(i + 1)));
                }
            },
        }
        i = i + 1;
    }
    proof {
        assert(lv.take(lines@.len() as int) =~= lv);
    }
    (cards, warnings)
}

} // verus!
