//! Wordlists: the words a scan tries, one per line, and the candidate names
//! built from them.

use vstd::prelude::*;
use vstd::string::*;

verus! {

/// A line without the carriage return that ends it, if one does.
pub open spec fn trim_cr(line: Seq<char>) -> Seq<char> {
    if line.len() > 0 && line.last() == '\r' {
        line.drop_last()
    } else {
        line
    }
}

/// The words found so far, with the line that ends the text appended as a
/// word when it is not empty once trimmed.
pub open spec fn add_word(done: Seq<Seq<char>>, line: Seq<char>) -> Seq<Seq<char>> {
    if trim_cr(line).len() > 0 {
        done.push(trim_cr(line))
    } else {
        done
    }
}

/// Reading a text from the start: the words of the lines ended so far, and
/// the line still open.
pub open spec fn read_lines(s: Seq<char>) -> (Seq<Seq<char>>, Seq<char>)
    decreases s.len(),
{
    if s.len() == 0 {
        (Seq::empty(), Seq::empty())
    } else {
        let (done, line) = read_lines(s.drop_last());
        if s.last() == '\n' {
            (add_word(done, line), Seq::empty())
        } else {
            (done, line.push(s.last()))
        }
    }
}

/// The words of a wordlist: its lines, split at `\n` and without a trailing
/// `\r`, leaving out the empty ones, in order.
pub open spec fn words_of(s: Seq<char>) -> Seq<Seq<char>> {
    add_word(read_lines(s).0, read_lines(s).1)
}

/// The candidate name of a word: `<word>.<domain>`.
pub open spec fn candidate(word: Seq<char>, domain: Seq<char>) -> Seq<char> {
    word + seq!['.'] + domain
}

/// The candidate names of a wordlist, one per word, in order.
pub open spec fn candidates(wordlist: Seq<char>, domain: Seq<char>) -> Seq<Seq<char>> {
    words_of(wordlist).map_values(|w: Seq<char>| candidate(w, domain))
}

/// Relies on String::push: appends one character to the string.
#[verifier::external_body]
fn push_char(s: &mut String, c: char)
    ensures
        final(s)@ == old(s)@.push(c),
{
    s.push(c)
}

/// Moves the open line into the words if it is not empty.
fn finish_line(done: &mut Vec<String>, line: String)
    ensures
        final(done)@.map_values(|w: String| w@) == (if line@.len() > 0 {
            old(done)@.map_values(|w: String| w@).push(line@)
        } else {
            old(done)@.map_values(|w: String| w@)
        }),
{
    if line.unicode_len() > 0 {
        let ghost d = done@;
        done.push(line);
        assert(done@.map_values(|w: String| w@) =~= d.map_values(|w: String| w@).push(line@));
    }
}

/// The words of a wordlist, one per non-empty line.
pub fn words(wordlist: &str) -> (r: Vec<String>)
    ensures
        r@.map_values(|w: String| w@) == words_of(wordlist@),
{
    let mut done: Vec<String> = Vec::new();
    let mut line = String::new();
    let mut pending_cr = false;
    for c in it: wordlist.chars()
        invariant
            it.seq() == wordlist@,
            done@.map_values(|w: String| w@) == read_lines(wordlist@.subrange(0, it.index() as int)).0,
            read_lines(wordlist@.subrange(0, it.index() as int)).1 == (if pending_cr {
                line@.push('\r')
            } else {
                line@
            }),
            !pending_cr ==> line@.len() == 0 || line@.last() != '\r',
    {
        let ghost i = it.index();
        let ghost prefix = wordlist@.subrange(0, i as int);
        assert(wordlist@.subrange(0, i + 1).drop_last() =~= prefix);
        if c == '\n' {
            if pending_cr {
                assert(line@.push('\r').drop_last() =~= line@);
            }
            let ended = line;
            line = String::new();
            pending_cr = false;
            finish_line(&mut done, ended);
        } else {
            if pending_cr {
                push_char(&mut line, '\r');
            }
            if c == '\r' {
                pending_cr = true;
            } else {
                push_char(&mut line, c);
                pending_cr = false;
            }
        }
    }
    let ghost n = wordlist@.len();
    assert(wordlist@.subrange(0, n as int) =~= wordlist@);
    if pending_cr {
        assert(line@.push('\r').drop_last() =~= line@);
    }
    finish_line(&mut done, line);
    done
}

/// The candidate names of a wordlist for `domain`: `<word>.<domain>` for each
/// word, in order.
pub fn candidate_names(wordlist: &str, domain: &str) -> (r: Vec<String>)
    ensures
        r@.map_values(|n: String| n@) == candidates(wordlist@, domain@),
{
    let ws = words(wordlist);
    let mut names: Vec<String> = Vec::new();
    let mut k: usize = 0;
    while k < ws.len()
        invariant
            k <= ws.len(),
            ws@.map_values(|w: String| w@) == words_of(wordlist@),
            names@.map_values(|n: String| n@) == words_of(wordlist@).subrange(0, k as int).map_values(
                |w: Seq<char>| candidate(w, domain@),
            ),
        decreases ws.len() - k,
    {
        let mut name = ws[k].clone();
        assert(ws@.map_values(|w: String| w@)[k as int] == ws@[k as int]@);
        assert(name@ == words_of(wordlist@)[k as int]);
        proof {
            reveal_strlit(".");
        }
        name.append(".");
        assert(name@ =~= words_of(wordlist@)[k as int] + seq!['.']);
        name.append(domain);
        assert(name@ =~= candidate(words_of(wordlist@)[k as int], domain@));
        let ghost before = names@;
        let ghost w = words_of(wordlist@);
        names.push(name);
        assert(names@.map_values(|n: String| n@) =~= before.map_values(|n: String| n@).push(
            candidate(w[k as int], domain@),
        ));
        assert(w.subrange(0, k + 1).map_values(|w: Seq<char>| candidate(w, domain@)) =~= w.subrange(
            0,
            k as int,
        ).map_values(|w: Seq<char>| candidate(w, domain@)).push(candidate(w[k as int], domain@)));
        assert(names@.map_values(|n: String| n@) =~= words_of(wordlist@).subrange(
            0,
            k + 1,
        ).map_values(|w: Seq<char>| candidate(w, domain@)));
        k = k + 1;
    }
    assert(words_of(wordlist@).subrange(0, ws.len() as int) =~= words_of(wordlist@));
    names
}

} // verus!
