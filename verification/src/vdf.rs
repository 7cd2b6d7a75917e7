//! Valve's KeyValues ("VDF") text: the quoted-string escapes and the
//! `"path"` entries of Steam's `libraryfolders.vdf`.

use vstd::prelude::*;

use crate::text::{chars_eq_ignore_ascii_case, chars_of, eq_ignore_ascii_case, string_of};

verus! {

/// The pieces of `s` between occurrences of `sep`, in order, as `str::split`
/// yields them: always at least one piece, empty pieces included.
pub open spec fn split_on(s: Seq<char>, sep: char) -> Seq<Seq<char>>
    decreases s.len(),
{
    if s.len() == 0 {
        seq![Seq::<char>::empty()]
    } else {
        let rest = split_on(s.drop_last(), sep);
        if s.last() == sep {
            rest.push(Seq::<char>::empty())
        } else {
            rest.update(rest.len() - 1, rest.last().push(s.last()))
        }
    }
}

/// Splitting always gives at least one piece.
pub proof fn lemma_split_on_nonempty(s: Seq<char>, sep: char)
    ensures
        split_on(s, sep).len() >= 1,
    decreases s.len(),
{
    if s.len() > 0 {
        lemma_split_on_nonempty(s.drop_last(), sep);
    }
}

/// The views of a vector of character vectors.
pub open spec fn char_rows(v: Seq<Vec<char>>) -> Seq<Seq<char>> {
    v.map_values(|r: Vec<char>| r@)
}

/// The views of a vector of strings.
pub open spec fn string_views(v: Seq<String>) -> Seq<Seq<char>> {
    v.map_values(|r: String| r@)
}

/// Split `s` at every occurrence of `sep`.
pub fn split_chars(s: &[char], sep: char) -> (res: Vec<Vec<char>>)
    ensures
        char_rows(res@) == split_on(s@, sep),
{
    let n = s.len();
    let mut done: Vec<Vec<char>> = Vec::new();
    let mut cur: Vec<char> = Vec::new();
    let mut i: usize = 0;
    assert(s@.take(0) =~= Seq::<char>::empty());
    assert(char_rows(done@).push(cur@) =~= split_on(s@.take(0), sep));
    while i < n
        invariant
            n == s@.len(),
            0 <= i <= n,
            char_rows(done@).push(cur@) == split_on(s@.take(i as int), sep),
        decreases n - i,
    {
        let c = s[i];
        let ghost prev = s@.take(i as int);
        let ghost next = s@.take(i + 1);
        assert(next.drop_last() =~= prev);
        assert(next.last() == c);
        proof {
            lemma_split_on_nonempty(prev, sep);
        }
        if c == sep {
            done.push(cur);
            cur = Vec::new();
            assert(char_rows(done@).push(cur@) =~= split_on(next, sep));
        } else {
            cur.push(c);
            assert(char_rows(done@).push(cur@) =~= split_on(next, sep));
        }
        i = i + 1;
    }
    assert(s@.take(n as int) =~= s@);
    done.push(cur);
    assert(char_rows(done@) =~= split_on(s@, sep));
    done
}

/// What an escaped character after a backslash stands for.
pub open spec fn unescape_pair(c: char) -> Seq<char> {
    if c == '\\' {
        seq!['\\']
    } else if c == '"' {
        seq!['"']
    } else if c == 'n' {
        seq!['\n']
    } else if c == 't' {
        seq!['\t']
    } else {
        seq!['\\', c]
    }
}

/// The text that a VDF string body stands for: `\\`, `\"`, `\n` and `\t`
/// are decoded, any other backslash is kept as it is.
pub open spec fn unescape(s: Seq<char>) -> Seq<char>
    decreases s.len(),
{
    if s.len() == 0 {
        Seq::<char>::empty()
    } else if s[0] != '\\' {
        seq![s[0]] + unescape(s.drop_first())
    } else if s.len() == 1 {
        seq!['\\']
    } else {
        unescape_pair(s[1]) + unescape(s.skip(2))
    }
}

/// How one character is written inside a quoted VDF string.
pub open spec fn escape_char(c: char) -> Seq<char> {
    if c == '\\' {
        seq!['\\', '\\']
    } else if c == '"' {
        seq!['\\', '"']
    } else {
        seq![c]
    }
}

/// The VDF string body for `s`: backslashes and double quotes escaped.
pub open spec fn escape(s: Seq<char>) -> Seq<char>
    decreases s.len(),
{
    if s.len() == 0 {
        Seq::<char>::empty()
    } else {
        escape_char(s[0]) + escape(s.drop_first())
    }
}

/// Decode the VDF escapes of `s`.
pub fn unescape_chars(s: &[char]) -> (res: Vec<char>)
    ensures
        res@ == unescape(s@),
{
    let n = s.len();
    let mut out: Vec<char> = Vec::new();
    let mut i: usize = 0;
    assert(s@.skip(0) =~= s@);
    while i < n
        invariant
            n == s@.len(),
            0 <= i <= n,
            out@ + unescape(s@.skip(i as int)) == unescape(s@),
        decreases n - i,
    {
        let ghost rest = s@.skip(i as int);
        let c = s[i];
        assert(rest[0] == c);
        if c != '\\' {
            assert(rest.drop_first() =~= s@.skip(i + 1));
            out.push(c);
            assert(out@ + unescape(s@.skip(i + 1)) =~= unescape(s@));
            i = i + 1;
        } else if i + 1 == n {
            out.push('\\');
            assert(s@.skip(i + 1) =~= Seq::<char>::empty());
            assert(out@ + unescape(s@.skip(i + 1)) =~= unescape(s@));
            i = i + 1;
        } else {
            let d = s[i + 1];
            assert(rest[1] == d);
            assert(rest.skip(2) =~= s@.skip(i + 2));
            let ghost before = out@;
            if d == '\\' {
                out.push('\\');
            } else if d == '"' {
                out.push('"');
            } else if d == 'n' {
                out.push('\n');
            } else if d == 't' {
                out.push('\t');
            } else {
                out.push('\\');
                out.push(d);
            }
            assert(out@ =~= before + unescape_pair(d));
            assert(out@ + unescape(s@.skip(i + 2)) =~= unescape(s@));
            i = i + 2;
        }
    }
    assert(s@.skip(n as int) =~= Seq::<char>::empty());
    assert(out@ =~= out@ + unescape(s@.skip(n as int)));
    out
}

/// Escape `s` for a quoted VDF string.
pub fn escape_chars(s: &[char]) -> (res: Vec<char>)
    ensures
        res@ == escape(s@),
{
    let n = s.len();
    let mut out: Vec<char> = Vec::new();
    let mut i: usize = 0;
    assert(s@.skip(0) =~= s@);
    while i < n
        invariant
            n == s@.len(),
            0 <= i <= n,
            out@ + escape(s@.skip(i as int)) == escape(s@),
        decreases n - i,
    {
        let ghost rest = s@.skip(i as int);
        let c = s[i];
        assert(rest[0] == c);
        assert(rest.drop_first() =~= s@.skip(i + 1));
        let ghost before = out@;
        if c == '\\' {
            out.push('\\');
            out.push('\\');
        } else if c == '"' {
            out.push('\\');
            out.push('"');
        } else {
            out.push(c);
        }
        assert(out@ =~= before + escape_char(c));
        assert(out@ + escape(s@.skip(i + 1)) =~= escape(s@));
        i = i + 1;
    }
    assert(s@.skip(n as int) =~= Seq::<char>::empty());
    assert(out@ =~= out@ + escape(s@.skip(n as int)));
    out
}

/// Decode VDF string escapes (`\\`, `\"`, `\n`, `\t`); any other backslash
/// stays as it is.
pub fn unescape_vdf(s: &str) -> (res: String)
    ensures
        res@ == unescape(s@),
{
    let cs = chars_of(s);
    let out = unescape_chars(cs.as_slice());
    string_of(out.as_slice())
}

/// Escape a value for embedding inside a quoted VDF string: backslashes and
/// double quotes are escaped so Dota 2 can still parse the config file.
pub fn escape_vdf(s: &str) -> (res: String)
    ensures
        res@ == escape(s@),
{
    let cs = chars_of(s);
    let out = escape_chars(cs.as_slice());
    string_of(out.as_slice())
}

/// Decoding what escaping wrote gives back the original text, so a value
/// written into a quoted VDF string reads back unchanged.
pub proof fn lemma_unescape_escape(s: Seq<char>)
    ensures
        unescape(escape(s)) == s,
    decreases s.len(),
{
    if s.len() > 0 {
        let c = s[0];
        let rest = s.drop_first();
        let e = escape(rest);
        lemma_unescape_escape(rest);
        let whole = escape_char(c) + e;
        assert(escape(s) == whole);
        if c == '\\' || c == '"' {
            assert(whole[0] == '\\');
            assert(whole[1] == c);
            assert(whole.skip(2) =~= e);
            assert(unescape(whole) == unescape_pair(c) + unescape(e));
        } else {
            assert(whole[0] == c);
            assert(whole.drop_first() =~= e);
        }
        assert(unescape(whole) =~= s);
    }
}

/// A lexical token of VDF text: a quoted string (decoded), or a brace.
pub enum TokenView {
    Str(Seq<char>),
    Open,
    Close,
}

/// A lexical token of VDF text.
#[derive(Debug)]
pub enum VdfToken {
    Str(Vec<char>),
    Open,
    Close,
}

impl View for VdfToken {
    type V = TokenView;

    open spec fn view(&self) -> TokenView {
        match self {
            VdfToken::Str(s) => TokenView::Str(s@),
            VdfToken::Open => TokenView::Open,
            VdfToken::Close => TokenView::Close,
        }
    }
}

/// The views of a vector of tokens.
pub open spec fn token_views(v: Seq<VdfToken>) -> Seq<TokenView> {
    v.map_values(|t: VdfToken| t@)
}

/// The braces of text outside quotes, in order; everything else there
/// (white space, other characters) separates tokens and is dropped.
pub open spec fn brace_tokens(s: Seq<char>) -> Seq<TokenView>
    decreases s.len(),
{
    if s.len() == 0 {
        Seq::<TokenView>::empty()
    } else {
        brace_tokens(s.drop_last()) + (if s.last() == '{' {
            seq![TokenView::Open]
        } else if s.last() == '}' {
            seq![TokenView::Close]
        } else {
            Seq::<TokenView>::empty()
        })
    }
}

/// The tokens of the pieces of a text split at every `"`: pieces at odd
/// positions are quoted strings, the others hold the braces.
pub open spec fn tokens_of_pieces(parts: Seq<Seq<char>>) -> Seq<TokenView>
    decreases parts.len(),
{
    if parts.len() == 0 {
        Seq::<TokenView>::empty()
    } else {
        tokens_of_pieces(parts.drop_last()) + (if (parts.len() - 1) % 2 == 1 {
            seq![TokenView::Str(unescape(parts.last()))]
        } else {
            brace_tokens(parts.last())
        })
    }
}

/// The tokens of a VDF text.
pub open spec fn vdf_tokens(text: Seq<char>) -> Seq<TokenView> {
    tokens_of_pieces(split_on(text, '"'))
}

/// The key whose values name Steam library folders.
pub open spec fn path_key() -> Seq<char> {
    seq!['p', 'a', 't', 'h']
}

/// Where reading key-value pairs stands: the key still waiting for its
/// value (none when the next string is a key), and the values of the
/// `path` keys read so far.
pub open spec fn pair_state(tokens: Seq<TokenView>) -> (Option<Seq<char>>, Seq<Seq<char>>)
    decreases tokens.len(),
{
    if tokens.len() == 0 {
        (None, Seq::<Seq<char>>::empty())
    } else {
        let (pending, found) = pair_state(tokens.drop_last());
        match tokens.last() {
            TokenView::Str(s) => match pending {
                None => (Some(s), found),
                Some(k) => (
                    None,
                    if eq_ignore_ascii_case(k, path_key()) {
                        found.push(s)
                    } else {
                        found
                    },
                ),
            },
            TokenView::Open => (None, found),
            TokenView::Close => (None, found),
        }
    }
}

/// The library folder paths that a `libraryfolders.vdf` text lists: the
/// values, in order, of the key-value pairs whose key is `path` (ignoring
/// ASCII case). A string is a key when it comes first, after a brace, or
/// after a complete pair; the next string is its value unless a `{` comes
/// first, in which case the key names a block and gives nothing.
pub open spec fn library_paths_spec(text: Seq<char>) -> Seq<Seq<char>> {
    pair_state(vdf_tokens(text)).1
}

/// Append the brace tokens of `s` to `out`.
fn push_brace_tokens(out: &mut Vec<VdfToken>, s: &[char])
    ensures
        token_views(final(out)@) == token_views(old(out)@) + brace_tokens(s@),
{
    let n = s.len();
    let mut j: usize = 0;
    let ghost start = token_views(out@);
    assert(brace_tokens(s@.take(0)) =~= Seq::<TokenView>::empty());
    assert(token_views(out@) =~= start + brace_tokens(s@.take(0)));
    while j < n
        invariant
            n == s@.len(),
            0 <= j <= n,
            start == token_views(old(out)@),
            token_views(out@) == start + brace_tokens(s@.take(j as int)),
        decreases n - j,
    {
        let c = s[j];
        let ghost next = s@.take(j + 1);
        assert(next.drop_last() =~= s@.take(j as int));
        assert(next.last() == c);
        let ghost before = token_views(out@);
        if c == '{' {
            out.push(VdfToken::Open);
            assert(token_views(out@) =~= before.push(TokenView::Open));
        } else if c == '}' {
            out.push(VdfToken::Close);
            assert(token_views(out@) =~= before.push(TokenView::Close));
        }
        assert(token_views(out@) =~= start + brace_tokens(next));
        j = j + 1;
    }
    assert(s@.take(n as int) =~= s@);
}

/// The tokens of a VDF text.
pub fn tokenize(text: &[char]) -> (res: Vec<VdfToken>)
    ensures
        token_views(res@) == vdf_tokens(text@),
{
    let parts = split_chars(text, '"');
    let ghost pv = split_on(text@, '"');
    let n = parts.len();
    let mut out: Vec<VdfToken> = Vec::new();
    let mut k: usize = 0;
    assert(token_views(out@) =~= tokens_of_pieces(pv.take(0)));
    while k < n
        invariant
            n == parts@.len(),
            char_rows(parts@) == pv,
            pv == split_on(text@, '"'),
            0 <= k <= n,
            token_views(out@) == tokens_of_pieces(pv.take(k as int)),
        decreases n - k,
    {
        let ghost next = pv.take(k + 1);
        assert(next.drop_last() =~= pv.take(k as int));
        assert(next.last() == pv[k as int]);
        assert(parts@[k as int]@ == pv[k as int]);
        let ghost before = token_views(out@);
        if k % 2 == 1 {
            let t = unescape_chars(parts[k].as_slice());
            out.push(VdfToken::Str(t));
            assert(token_views(out@) =~= before.push(TokenView::Str(unescape(pv[k as int]))));
        } else {
            push_brace_tokens(&mut out, parts[k].as_slice());
        }
        assert(token_views(out@) =~= tokens_of_pieces(next));
        k = k + 1;
    }
    assert(pv.take(n as int) =~= pv);
    out
}

/// Extract the values of every `"path"` key from a `libraryfolders.vdf` file.
pub fn library_paths_from_vdf(text: &str) -> (res: Vec<String>)
    ensures
        string_views(res@) == library_paths_spec(text@),
{
    let cs = chars_of(text);
    let tokens = tokenize(cs.as_slice());
    let ghost tv = vdf_tokens(text@);
    let key: Vec<char> = vec!['p', 'a', 't', 'h'];
    assert(key@ =~= path_key());
    let mut out: Vec<String> = Vec::new();
    // The index of the string token that is a key still waiting for its value.
    let mut pending: Option<usize> = None;
    let n = tokens.len();
    let mut i: usize = 0;
    assert(string_views(out@) =~= pair_state(tv.take(0)).1);
    while i < n
        invariant
            n == tv.len(),
            tokens@.len() == n,
            token_views(tokens@) == tv,
            key@ == path_key(),
            0 <= i <= n,
            string_views(out@) == pair_state(tv.take(i as int)).1,
            match pending {
                None => pair_state(tv.take(i as int)).0 is None,
                Some(p) => p < i && tokens@[p as int] is Str && pair_state(tv.take(i as int)).0
                    == Some(tokens@[p as int]->Str_0@),
            },
        decreases n - i,
    {
        let ghost next = tv.take(i + 1);
        assert(next.drop_last() =~= tv.take(i as int));
        assert(next.last() == tv[i as int]);
        assert(tokens@[i as int]@ == tv[i as int]);
        let ghost before = string_views(out@);
        match &tokens[i] {
            VdfToken::Str(s) => {
                match pending {
                    None => {
                        pending = Some(i);
                    },
                    Some(p) => {
                        let is_path = match &tokens[p] {
                            VdfToken::Str(k) => chars_eq_ignore_ascii_case(
                                k.as_slice(),
                                key.as_slice(),
                            ),
                            _ => false,
                        };
                        if is_path {
                            let v = string_of(s.as_slice());
                            out.push(v);
                            assert(string_views(out@) =~= before.push(s@));
                        }
                        pending = None;
                    },
                }
            },
            _ => {
                pending = None;
            },
        }
        i = i + 1;
    }
    assert(tv.take(n as int) =~= tv);
    out
}

} // verus!
