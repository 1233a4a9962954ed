//! Splitting a command line into words.
use vstd::prelude::*;
use crate::text::{is_whitespace, is_whitespace_char, push_char};
use vstd::string::StringSliceAdditionalSpecFns;
use vstd::utf8::{encode_utf8, is_ascii_chars, is_ascii_chars_encode_utf8};

verus! {

/// The character a byte stands for when read as Latin-1 (`byte as char`).
pub open spec fn byte_char(b: u8) -> char {
    b as char
}

/// The words of `b`, read as Latin-1 text, continuing a word `cur` with quoting `quoted`:
/// white space outside double quotes ends a word; `"` toggles quoting and is dropped;
/// `\"` and `\\` stand for `"` and `\`; any other `\` is kept. Empty words are dropped.
pub open spec fn words_from(b: Seq<u8>, cur: Seq<char>, quoted: bool) -> Seq<Seq<char>>
    decreases b.len(),
{
    if b.len() == 0 {
        if cur.len() > 0 {
            seq![cur]
        } else {
            Seq::empty()
        }
    } else if b[0] == 92u8 && b.len() >= 2 && (b[1] == 34u8 || b[1] == 92u8) {
        words_from(b.skip(2), cur.push(byte_char(b[1])), quoted)
    } else if b[0] == 92u8 {
        words_from(b.skip(1), cur.push('\\'), quoted)
    } else if b[0] == 34u8 {
        words_from(b.skip(1), cur, !quoted)
    } else if is_whitespace_char(byte_char(b[0])) && !quoted {
        if cur.len() > 0 {
            seq![cur] + words_from(b.skip(1), Seq::empty(), quoted)
        } else {
            words_from(b.skip(1), Seq::empty(), quoted)
        }
    } else {
        words_from(b.skip(1), cur.push(byte_char(b[0])), quoted)
    }
}

/// The words of the bytes `b`.
pub open spec fn words_spec(b: Seq<u8>) -> Seq<Seq<char>> {
    words_from(b, Seq::empty(), false)
}

/// Every word is non-empty.
pub proof fn lemma_words_nonempty(b: Seq<u8>, cur: Seq<char>, quoted: bool)
    ensures
        forall|k: int| 0 <= k < words_from(b, cur, quoted).len() ==> #[trigger] words_from(
            b,
            cur,
            quoted,
        )[k].len() > 0,
    decreases b.len(),
{
    let w = words_from(b, cur, quoted);
    if b.len() == 0 {
    } else {
        let (nb, nc, nq) = if b[0] == 92u8 && b.len() >= 2 && (b[1] == 34u8 || b[1] == 92u8) {
            (b.skip(2), cur.push(byte_char(b[1])), quoted)
        } else if b[0] == 92u8 {
            (b.skip(1), cur.push('\\'), quoted)
        } else if b[0] == 34u8 {
            (b.skip(1), cur, !quoted)
        } else if is_whitespace_char(byte_char(b[0])) && !quoted {
            (b.skip(1), Seq::empty(), quoted)
        } else {
            (b.skip(1), cur.push(byte_char(b[0])), quoted)
        };
        lemma_words_nonempty(nb, nc, nq);
        let rest = words_from(nb, nc, nq);
        if is_whitespace_char(byte_char(b[0])) && !quoted && b[0] != 92u8 && b[0] != 34u8
            && cur.len() > 0 {
            assert(w == seq![cur] + rest);
            assert forall|k: int| 0 <= k < w.len() implies #[trigger] w[k].len() > 0 by {
                if k > 0 {
                    assert(w[k] == rest[k - 1]);
                }
            }
        } else {
            assert(w == rest);
        }
    }
}

/// Splits a command line into words: white space outside double quotes separates words,
/// double quotes group and are dropped, `\"` and `\\` escape. Each byte of the text becomes
/// one character (Latin-1), as the launcher passes it on. On ASCII text with no double quote
/// and no backslash, the words are those `str::split_whitespace` gives.
pub fn shell_words_split(input: &str) -> (res: Vec<String>)
    ensures
        res.deep_view() == words_spec(input.spec_bytes()),
        forall|k: int| 0 <= k < res.len() ==> res[k]@.len() > 0,
        is_ascii_chars(input@) && !input@.contains('"') && !input@.contains('\\') ==> res.deep_view()
            == non_empty(ws_pieces(input@)),
{
    let bytes = input.as_bytes();
    let ghost b = bytes@;
    let mut result: Vec<String> = Vec::new();
    let mut current = String::new();
    let mut in_quote = false;
    let mut i: usize = 0;
    assert(b.skip(0) =~= b);
    while i < bytes.len()
        invariant
            i <= bytes.len(),
            b == bytes@,
            result.deep_view() + words_from(b.skip(i as int), current@, in_quote) == words_spec(b),
        decreases bytes.len() - i,
    {
        let ghost before = result.deep_view();
        let ghost rest = b.skip(i as int);
        if bytes[i] == 92u8 {
            if i + 1 < bytes.len() && (bytes[i + 1] == 34u8 || bytes[i + 1] == 92u8) {
                i = i + 1;
                push_char(&mut current, bytes[i] as char);
                i = i + 1;
                assert(rest.skip(2) =~= b.skip(i as int));
                continue;
            }
            push_char(&mut current, '\\');
            i = i + 1;
            assert(rest.skip(1) =~= b.skip(i as int));
            continue;
        }
        if bytes[i] == 34u8 {
            in_quote = !in_quote;
            i = i + 1;
            assert(rest.skip(1) =~= b.skip(i as int));
            continue;
        }
        if is_whitespace(bytes[i] as char) && !in_quote {
            if !current.as_str().is_empty() {
                let ghost word = current@;
                result.push(current);
                current = String::new();
                assert(result.deep_view() =~= before.push(word));
                assert(before + (seq![word] + words_from(rest.skip(1), Seq::empty(), in_quote))
                    =~= result.deep_view() + words_from(rest.skip(1), Seq::empty(), in_quote));
            } else {
                current = String::new();
            }
            i = i + 1;
            assert(rest.skip(1) =~= b.skip(i as int));
            continue;
        }
        push_char(&mut current, bytes[i] as char);
        i = i + 1;
        assert(rest.skip(1) =~= b.skip(i as int));
    }
    if !current.as_str().is_empty() {
        let ghost before = result.deep_view();
        let ghost word = current@;
        result.push(current);
        assert(result.deep_view() =~= before.push(word));
    }
    proof {
        lemma_words_nonempty(b, Seq::empty(), false);
        assert forall|k: int| 0 <= k < result.len() implies result[k]@.len() > 0 by {
            assert(result.deep_view()[k] == result[k]@);
            assert(words_from(b, Seq::empty(), false)[k].len() > 0);
        }
        if is_ascii_chars(input@) && !input@.contains('"') && !input@.contains('\\') {
            lemma_plain_words_split_on_white_space(input@);
        }
    }
    result
}

/// The pieces of `s` between white-space characters, in order, empty pieces included: what
/// `str::split(char::is_whitespace)` gives.
pub open spec fn ws_pieces(s: Seq<char>) -> Seq<Seq<char>>
    decreases s.len(),
{
    if s.len() == 0 {
        seq![Seq::<char>::empty()]
    } else {
        let rest = ws_pieces(s.skip(1));
        if is_whitespace_char(s[0]) {
            seq![Seq::<char>::empty()] + rest
        } else {
            rest.update(0, seq![s[0]] + rest[0])
        }
    }
}

/// The non-empty ones of `pieces`, in order.
pub open spec fn non_empty(pieces: Seq<Seq<char>>) -> Seq<Seq<char>>
    decreases pieces.len(),
{
    if pieces.len() == 0 {
        Seq::empty()
    } else {
        (if pieces[0].len() > 0 {
            seq![pieces[0]]
        } else {
            Seq::<Seq<char>>::empty()
        }) + non_empty(pieces.skip(1))
    }
}

/// The characters the bytes stand for, read as Latin-1.
pub open spec fn byte_chars(b: Seq<u8>) -> Seq<char> {
    b.map_values(|x: u8| byte_char(x))
}

proof fn lemma_ws_pieces_nonempty(s: Seq<char>)
    ensures
        ws_pieces(s).len() >= 1,
    decreases s.len(),
{
    if s.len() > 0 {
        lemma_ws_pieces_nonempty(s.skip(1));
    }
}

proof fn lemma_plain_words_from(b: Seq<u8>, cur: Seq<char>)
    requires
        forall|i: int| 0 <= i < b.len() ==> b[i] != 34u8 && b[i] != 92u8,
    ensures
        words_from(b, cur, false) == non_empty(
            ws_pieces(byte_chars(b)).update(0, cur + ws_pieces(byte_chars(b))[0]),
        ),
    decreases b.len(),
{
    let c = byte_chars(b);
    let e = Seq::<char>::empty();
    if b.len() == 0 {
        assert(c =~= e);
        let u = ws_pieces(c).update(0, cur + ws_pieces(c)[0]);
        assert(u =~= seq![cur]);
        assert(u.skip(1) =~= Seq::<Seq<char>>::empty());
        assert(non_empty(u.skip(1)) =~= Seq::<Seq<char>>::empty());
        assert(u[0] == cur);
        if cur.len() > 0 {
            assert(non_empty(u) =~= seq![cur]);
        } else {
            assert(non_empty(u) =~= Seq::<Seq<char>>::empty());
        }
    } else {
        let b1 = b.skip(1);
        assert(c.skip(1) =~= byte_chars(b1));
        assert(c[0] == byte_char(b[0]));
        let p = ws_pieces(byte_chars(b1));
        lemma_ws_pieces_nonempty(byte_chars(b1));
        if is_whitespace_char(byte_char(b[0])) {
            lemma_plain_words_from(b1, e);
            assert(p.update(0, e + p[0]) =~= p);
            let u = ws_pieces(c).update(0, cur + ws_pieces(c)[0]);
            assert(ws_pieces(c) == seq![e] + p);
            assert(u =~= seq![cur] + p);
            assert(u.skip(1) =~= p);
            if cur.len() > 0 {
                assert(non_empty(u) =~= seq![cur] + non_empty(p));
            } else {
                assert(non_empty(u) =~= non_empty(p));
            }
        } else {
            let ch = byte_char(b[0]);
            lemma_plain_words_from(b1, cur.push(ch));
            assert(ws_pieces(c) == p.update(0, seq![ch] + p[0]));
            assert(ws_pieces(c)[0] == seq![ch] + p[0]);
            assert(cur + (seq![ch] + p[0]) =~= cur.push(ch) + p[0]);
            assert(ws_pieces(c).update(0, cur + ws_pieces(c)[0]) =~= p.update(
                0,
                cur.push(ch) + p[0],
            ));
        }
    }
}

/// A command line with no double quote and no backslash splits as on white space: the words
/// are the non-empty pieces between white-space characters, as `str::split_whitespace`
/// gives them.
pub proof fn lemma_plain_words_split_on_white_space(text: Seq<char>)
    requires
        is_ascii_chars(text),
        !text.contains('"'),
        !text.contains('\\'),
    ensures
        words_spec(encode_utf8(text)) == non_empty(ws_pieces(text)),
{
    let b = encode_utf8(text);
    is_ascii_chars_encode_utf8(text);
    assert forall|i: int| 0 <= i < b.len() implies b[i] != 34u8 && b[i] != 92u8 && byte_char(b[i])
        == text[i] by {
        assert(text[i] != '"');
        assert(text[i] != '\\');
        let c = text[i];
        assert('\0' <= c <= '\u{7f}');
        assert(b[i] == c as u8);
    }
    assert(byte_chars(b) =~= text);
    lemma_plain_words_from(b, Seq::empty());
    lemma_ws_pieces_nonempty(text);
    assert(ws_pieces(text).update(0, Seq::<char>::empty() + ws_pieces(text)[0]) =~= ws_pieces(text));
}

} // verus!
