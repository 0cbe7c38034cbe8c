//! The bearer token attached to each engine run: the cookie header sent to fetch it,
//! taken from a file of saved request headers, and the check of the response.
use vstd::prelude::*;

verus! {

/// Why no token can be had.
#[derive(Debug, Clone, Copy, PartialEq, Eq, Structural)]
pub enum TokenError {
    /// A line of the saved request starts with the cookie marker but has no `:`.
    MalformedCookieLine,
    /// The saved request gives no cookie value at all.
    NoCookies,
    /// The token response came with a status other than 200.
    BadStatus(u16),
    /// The token response had an empty body.
    EmptyBody,
}

/// The lines of `s`, cut at each `'\n'`; a text that ends in `'\n'` ends in an empty
/// line, and the empty text is one empty line.
pub open spec fn split_lines(s: Seq<char>) -> Seq<Seq<char>>
    decreases s.len(),
{
    if s.len() == 0 {
        seq![Seq::empty()]
    } else {
        let rest = split_lines(s.drop_last());
        if s.last() == '\n' {
            rest.push(Seq::empty())
        } else {
            rest.update(rest.len() - 1, rest.last().push(s.last()))
        }
    }
}

/// The marker that starts a cookie line.
pub open spec fn cookie_marker() -> Seq<char> {
    seq!['C', 'o', 'o', 'k', 'i', 'e']
}

pub open spec fn is_cookie_line(line: Seq<char>) -> bool {
    line.len() >= 6 && line.subrange(0, 6) == cookie_marker()
}

/// What follows the first `:` of `line`, if it has one.
pub open spec fn after_colon(line: Seq<char>) -> Option<Seq<char>>
    decreases line.len(),
{
    if line.len() == 0 {
        None
    } else if line[0] == ':' {
        Some(line.drop_first())
    } else {
        after_colon(line.drop_first())
    }
}

/// The cookie values gathered so far, `acc`, after one more line: a cookie line adds
/// what follows its first `:`, and one without a `:` spoils the whole.
pub open spec fn add_line(acc: Option<Seq<char>>, line: Seq<char>) -> Option<Seq<char>> {
    match acc {
        None => None,
        Some(a) => if is_cookie_line(line) {
            match after_colon(line) {
                None => None,
                Some(v) => Some(a + v),
            }
        } else {
            Some(a)
        },
    }
}

/// The values of all cookie lines among `lines`, joined in order; `None` when a
/// cookie line has no `:`.
pub open spec fn collect_cookies(lines: Seq<Seq<char>>) -> Option<Seq<char>>
    decreases lines.len(),
{
    if lines.len() == 0 {
        Some(Seq::empty())
    } else {
        add_line(collect_cookies(lines.drop_last()), lines.last())
    }
}

/// The cookie values of a saved request text.
pub open spec fn cookies_of(text: Seq<char>) -> Option<Seq<char>> {
    collect_cookies(split_lines(text))
}

fn is_cookie_line_at(text: &str, start: usize, end: usize) -> (r: bool)
    requires
        start <= end <= text@.len(),
    ensures
        r == is_cookie_line(text@.subrange(start as int, end as int)),
{
    let ghost line = text@.subrange(start as int, end as int);
    if end - start < 6 {
        return false;
    }
    let r = text.get_char(start) == 'C' && text.get_char(start + 1) == 'o' && text.get_char(
        start + 2,
    ) == 'o' && text.get_char(start + 3) == 'k' && text.get_char(start + 4) == 'i'
        && text.get_char(start + 5) == 'e';
    proof {
        if r {
            assert(line.subrange(0, 6) =~= cookie_marker());
        } else {
            if line.subrange(0, 6) == cookie_marker() {
                assert(line.subrange(0, 6)[0] == 'C');
                assert(line.subrange(0, 6)[1] == 'o');
                assert(line.subrange(0, 6)[2] == 'o');
                assert(line.subrange(0, 6)[3] == 'k');
                assert(line.subrange(0, 6)[4] == 'i');
                assert(line.subrange(0, 6)[5] == 'e');
            }
        }
    }
    r
}

fn find_colon(text: &str, start: usize, end: usize) -> (r: Option<usize>)
    requires
        start <= end <= text@.len(),
    ensures
        r is None <==> after_colon(text@.subrange(start as int, end as int)) is None,
        r is Some ==> start <= r->0 < end && after_colon(text@.subrange(start as int, end as int))
            == Some(text@.subrange(r->0 + 1, end as int)),
{
    let mut j: usize = start;
    while j < end
        invariant
            start <= j <= end <= text@.len(),
            after_colon(text@.subrange(start as int, end as int)) == after_colon(
                text@.subrange(j as int, end as int),
            ),
        decreases end - j,
    {
        let ghost rest = text@.subrange(j as int, end as int);
        assert(rest.drop_first() =~= text@.subrange(j + 1, end as int));
        if text.get_char(j) == ':' {
            return Some(j);
        }
        j = j + 1;
    }
    None
}

/// Adds to `acc` the value of the line `text[start..end]`, if it is a cookie line;
/// false when it is one without a `:`.
fn take_line(text: &str, start: usize, end: usize, acc: &mut String) -> (ok: bool)
    requires
        start <= end <= text@.len(),
    ensures
        ok <==> add_line(Some(old(acc)@), text@.subrange(start as int, end as int)) is Some,
        ok ==> add_line(Some(old(acc)@), text@.subrange(start as int, end as int)) == Some(
            final(acc)@,
        ),
{
    if !is_cookie_line_at(text, start, end) {
        return true;
    }
    match find_colon(text, start, end) {
        None => false,
        Some(j) => {
            acc.append(text.substring_char(j + 1, end));
            true
        },
    }
}

/// The value of the `Cookie` header to send for the token: the values of every line
/// of `text` that starts with `Cookie`, each the part after the line's first `:`,
/// joined in order.
pub fn cookie_header(text: &str) -> (r: Result<String, TokenError>)
    ensures
        cookies_of(text@) is None <==> r == Err::<String, TokenError>(
            TokenError::MalformedCookieLine,
        ),
        cookies_of(text@) == Some(Seq::<char>::empty()) <==> r == Err::<String, TokenError>(
            TokenError::NoCookies,
        ),
        cookies_of(text@) is Some && cookies_of(text@)->0.len() > 0 ==> r is Ok && r->Ok_0@
            == cookies_of(text@)->0,
{
    let n = text.unicode_len();
    let mut acc = String::new();
    let mut ok = true;
    let mut start: usize = 0;
    let mut i: usize = 0;
    let ghost mut done: Seq<Seq<char>> = Seq::empty();
    assert(text@.take(0) =~= Seq::<char>::empty());
    assert(text@.subrange(0, 0) =~= Seq::<char>::empty());
    while i < n
        invariant
            n == text@.len(),
            start <= i <= n,
            split_lines(text@.take(i as int)) == done.push(text@.subrange(start as int, i as int)),
            collect_cookies(done) == if ok {
                Some(acc@)
            } else {
                None::<Seq<char>>
            },
        decreases n - i,
    {
        let c = text.get_char(i);
        let ghost line = text@.subrange(start as int, i as int);
        assert(text@.take(i + 1).drop_last() =~= text@.take(i as int));
        if c == '\n' {
            let ghost before = acc@;
            if ok {
                ok = take_line(text, start, i, &mut acc);
            }
            proof {
                let next = done.push(line);
                assert(next.drop_last() =~= done);
                done = next;
                assert(text@.subrange(i + 1, i + 1) =~= Seq::<char>::empty());
            }
            start = i + 1;
        } else {
            assert(line.push(c) =~= text@.subrange(start as int, i + 1));
            assert(done.push(line).update(done.len() as int, line.push(c)) =~= done.push(
                text@.subrange(start as int, i + 1),
            ));
        }
        i = i + 1;
    }
    let ghost last = text@.subrange(start as int, n as int);
    if ok {
        ok = take_line(text, start, n, &mut acc);
    }
    proof {
        assert(text@.take(n as int) =~= text@);
        assert(done.push(last).drop_last() =~= done);
    }
    if !ok {
        Err(TokenError::MalformedCookieLine)
    } else if acc.as_str().unicode_len() == 0 {
        assert(acc@ =~= Seq::<char>::empty());
        Err(TokenError::NoCookies)
    } else {
        Ok(acc)
    }
}

/// Accepts the body of a token response as the token when the status is 200 and the
/// body is not empty.
pub fn check_token_response(status: u16, body: String) -> (r: Result<String, TokenError>)
    ensures
        status != 200 ==> r == Err::<String, TokenError>(TokenError::BadStatus(status)),
        status == 200 && body@.len() == 0 ==> r == Err::<String, TokenError>(
            TokenError::EmptyBody,
        ),
        status == 200 && body@.len() > 0 ==> r is Ok && r->Ok_0@ == body@,
{
    if status != 200 {
        Err(TokenError::BadStatus(status))
    } else if body.as_str().unicode_len() == 0 {
        Err(TokenError::EmptyBody)
    } else {
        Ok(body)
    }
}

/// The header that carries `token` to the fuzzing engine.
pub fn authorization_header(token: &str) -> (r: String)
    ensures
        r@ == "Authorization: "@ + token@,
{
    let mut r = String::from_str("Authorization: ");
    r.append(token);
    r
}

/// Lines none of which is a cookie line give no cookie values.
proof fn lemma_collect_without_cookies(lines: Seq<Seq<char>>)
    requires
        forall|k: int| 0 <= k < lines.len() ==> !is_cookie_line(#[trigger] lines[k]),
    ensures
        collect_cookies(lines) == Some(Seq::<char>::empty()),
    decreases lines.len(),
{
    if lines.len() > 0 {
        let prefix = lines.drop_last();
        assert forall|k: int| 0 <= k < prefix.len() implies !is_cookie_line(#[trigger] prefix[k]) by {
            assert(prefix[k] == lines[k]);
        }
        lemma_collect_without_cookies(prefix);
        assert(!is_cookie_line(lines[lines.len() - 1]));
    }
}

/// A saved request with no line that starts with the cookie marker gives no cookie
/// values, so no token is fetched for it.
pub proof fn lemma_no_cookie_lines(text: Seq<char>)
    requires
        forall|k: int|
            0 <= k < split_lines(text).len() ==> !is_cookie_line(#[trigger] split_lines(text)[k]),
    ensures
        cookies_of(text) == Some(Seq::<char>::empty()),
{
    lemma_collect_without_cookies(split_lines(text));
}

} // verus!
