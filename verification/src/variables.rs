//! The variable extractor: the paths that a document's template expressions
//! refer to.

use vstd::prelude::*;
use crate::text::{find_from, first_occurrence, from_chars, to_chars};

verus! {

/// The text that opens a template expression.
pub const EXPRESSION_OPEN: &'static str = "{{";

/// The text that closes a template expression.
pub const EXPRESSION_CLOSE: &'static str = "}}";

/// The texts between `{{` and the next `}}`, in order, from position `i`
/// on. An expression that is not closed ends the search.
pub open spec fn expression_bodies(s: Seq<char>, i: int) -> Seq<Seq<char>>
    decreases s.len() - i,
{
    match first_occurrence(s, EXPRESSION_OPEN@, i) {
        None => Seq::empty(),
        Some(a) => match first_occurrence(s, EXPRESSION_CLOSE@, a + 2) {
            None => Seq::empty(),
            Some(b) => if i <= a && a + 2 <= b && b + 2 <= s.len() {
                seq![s.subrange(a + 2, b)] + expression_bodies(s, b + 2)
            } else {
                Seq::empty()
            },
        },
    }
}

/// White space inside an expression.
pub open spec fn is_space(c: char) -> bool {
    c == ' ' || c == '\t' || c == '\n' || c == '\r'
}

/// A block marker: `#` opens a block, `/` closes one.
pub open spec fn is_block_marker(c: char) -> bool {
    c == '#' || c == '/'
}

/// The first position at or after `k` that holds neither white space nor a
/// block marker.
pub open spec fn token_start(body: Seq<char>, k: int) -> int
    decreases body.len() - k,
{
    if k < 0 || k >= body.len() {
        body.len() as int
    } else if is_space(body[k]) || is_block_marker(body[k]) {
        token_start(body, k + 1)
    } else {
        k
    }
}

/// The first position at or after `k` that holds white space.
pub open spec fn token_end(body: Seq<char>, k: int) -> int
    decreases body.len() - k,
{
    if k < 0 || k >= body.len() {
        body.len() as int
    } else if is_space(body[k]) {
        k
    } else {
        token_end(body, k + 1)
    }
}

/// The first token of an expression, block markers and white space before
/// it left out.
pub open spec fn variable_of(body: Seq<char>) -> Seq<char> {
    let start = token_start(body, 0);
    body.subrange(start, token_end(body, start))
}

/// One of the words that name a block construct, not a variable.
pub open spec fn is_keyword(token: Seq<char>) -> bool {
    token == "if"@ || token == "unless"@ || token == "each"@ || token == "with"@ || token
        == "else"@
}

/// The variables of the first `n` expressions, each once, in the order of
/// their first use; keywords and empty tokens are left out.
pub open spec fn variables_of(bodies: Seq<Seq<char>>, n: int) -> Seq<Seq<char>>
    decreases n,
{
    if n <= 0 {
        Seq::empty()
    } else {
        let before = variables_of(bodies, n - 1);
        let token = variable_of(bodies[n - 1]);
        if token.len() == 0 || is_keyword(token) || before.contains(token) {
            before
        } else {
            before.push(token)
        }
    }
}

/// The variables that the template expressions of `s` refer to.
pub open spec fn extracted(s: Seq<char>) -> Seq<Seq<char>> {
    variables_of(expression_bodies(s, 0), expression_bodies(s, 0).len() as int)
}

/// The values of a list of strings.
pub open spec fn string_views(items: Seq<String>) -> Seq<Seq<char>> {
    Seq::new(items.len(), |i: int| items[i]@)
}

/// The values of a list of character vectors.
pub open spec fn char_views(items: Seq<Vec<char>>) -> Seq<Seq<char>> {
    Seq::new(items.len(), |i: int| items[i]@)
}

/// No variable occurs twice.
pub proof fn lemma_variables_distinct(bodies: Seq<Seq<char>>, n: int)
    ensures
        forall|i: int, j: int|
            0 <= i < j < variables_of(bodies, n).len() ==> variables_of(bodies, n)[i]
                != variables_of(bodies, n)[j],
    decreases n,
{
    if n > 0 {
        lemma_variables_distinct(bodies, n - 1);
        let before = variables_of(bodies, n - 1);
        let token = variable_of(bodies[n - 1]);
        if !(token.len() == 0 || is_keyword(token) || before.contains(token)) {
            let now = before.push(token);
            assert forall|i: int, j: int| 0 <= i < j < now.len() implies now[i] != now[j] by {
                if j == before.len() {
                    assert(before[i] == now[i]);
                    assert(before.contains(before[i]));
                }
            }
        }
    }
}

/// No variable is a keyword, and none is empty.
pub proof fn lemma_variables_exclude_keywords(bodies: Seq<Seq<char>>, n: int)
    ensures
        forall|i: int|
            0 <= i < variables_of(bodies, n).len() ==> !is_keyword(
                #[trigger] variables_of(bodies, n)[i],
            ) && variables_of(bodies, n)[i].len() > 0,
    decreases n,
{
    if n > 0 {
        lemma_variables_exclude_keywords(bodies, n - 1);
        let before = variables_of(bodies, n - 1);
        let now = variables_of(bodies, n);
        assert forall|i: int| 0 <= i < now.len() implies !is_keyword(#[trigger] now[i])
            && now[i].len() > 0 by {
            if i < before.len() {
                assert(now[i] == before[i]);
            }
        }
    }
}

fn is_space_char(c: char) -> (r: bool)
    ensures
        r == is_space(c),
{
    c == ' ' || c == '\t' || c == '\n' || c == '\r'
}

/// Whether two character vectors hold the same text.
fn same_chars(a: &Vec<char>, b: &Vec<char>) -> (r: bool)
    ensures
        r == (a@ == b@),
{
    if a.len() != b.len() {
        return false;
    }
    let mut k: usize = 0;
    while k < a.len()
        invariant
            k <= a.len(),
            a.len() == b.len(),
            forall|j: int| 0 <= j < k ==> a@[j] == b@[j],
        decreases a.len() - k,
    {
        if a[k] != b[k] {
            return false;
        }
        k += 1;
    }
    assert(a@ =~= b@);
    true
}

/// Whether the list holds the text.
fn holds(list: &Vec<Vec<char>>, item: &Vec<char>) -> (r: bool)
    ensures
        r == char_views(list@).contains(item@),
{
    let mut k: usize = 0;
    while k < list.len()
        invariant
            k <= list.len(),
            forall|j: int| 0 <= j < k ==> char_views(list@)[j] != item@,
        decreases list.len() - k,
    {
        if same_chars(&list[k], item) {
            assert(char_views(list@)[k as int] == item@);
            return true;
        }
        k += 1;
    }
    false
}

/// Whether the token is a keyword.
fn is_keyword_token(token: &Vec<char>) -> (r: bool)
    ensures
        r == is_keyword(token@),
{
    same_chars(token, &to_chars("if")) || same_chars(token, &to_chars("unless")) || same_chars(
        token,
        &to_chars("each"),
    ) || same_chars(token, &to_chars("with")) || same_chars(token, &to_chars("else"))
}

/// The first token of the expression `v[from..to]`.
fn variable_token(v: &Vec<char>, from: usize, to: usize) -> (token: Vec<char>)
    requires
        from <= to <= v.len(),
    ensures
        token@ == variable_of(v@.subrange(from as int, to as int)),
{
    let ghost body = v@.subrange(from as int, to as int);
    let mut start: usize = from;
    while start < to && (is_space_char(v[start]) || v[start] == '#' || v[start] == '/')
        invariant
            from <= start <= to <= v.len(),
            body == v@.subrange(from as int, to as int),
            token_start(body, 0) == token_start(body, start - from),
        decreases to - start,
    {
        assert(body[start - from] == v@[start as int]);
        start += 1;
    }
    let mut end: usize = start;
    assert(start < to ==> body[start - from] == v@[start as int]);
    while end < to && !is_space_char(v[end])
        invariant
            start <= end <= to <= v.len(),
            from <= start,
            body == v@.subrange(from as int, to as int),
            token_end(body, start - from) == token_end(body, end - from),
        decreases to - end,
    {
        assert(body[end - from] == v@[end as int]);
        end += 1;
    }
    assert(end < to ==> body[end - from] == v@[end as int]);
    let mut token: Vec<char> = Vec::new();
    let mut k: usize = start;
    while k < end
        invariant
            start <= k <= end <= to <= v.len(),
            token@ == v@.subrange(start as int, k as int),
        decreases end - k,
    {
        token.push(v[k]);
        k += 1;
        assert(v@.subrange(start as int, k as int) =~= v@.subrange(start as int, k - 1).push(
            v@[k - 1],
        ));
    }
    assert(v@.subrange(start as int, end as int) =~= body.subrange(start - from, end - from));
    token
}

/// The variables that the template expressions of a text refer to: for each
/// `{{...}}` the first token after any block marker, unless it is one of the
/// keywords `if`, `unless`, `each`, `with`, `else`; each variable once, in
/// the order of first use.
pub fn extract_variables(text: &str) -> (variables: Vec<String>)
    ensures
        string_views(variables@) == extracted(text@),
{
    let chars = to_chars(text);
    let open = to_chars(EXPRESSION_OPEN);
    let close = to_chars(EXPRESSION_CLOSE);
    let mut found: Vec<Vec<char>> = Vec::new();
    let ghost mut done: Seq<Seq<char>> = Seq::empty();
    let mut i: usize = 0;
    proof {
        reveal_strlit("{{");
        reveal_strlit("}}");
        assert(done + expression_bodies(chars@, 0) =~= expression_bodies(chars@, 0));
        assert(char_views(found@) =~= variables_of(done, 0));
    }
    loop
        invariant
            i <= chars.len(),
            chars@ == text@,
            open@ == EXPRESSION_OPEN@,
            close@ == EXPRESSION_CLOSE@,
            open@.len() == 2,
            close@.len() == 2,
            done + expression_bodies(chars@, i as int) == expression_bodies(chars@, 0),
            char_views(found@) == variables_of(done, done.len() as int),
        ensures
            done == expression_bodies(chars@, 0),
        decreases chars.len() - i,
    {
        let a = match find_from(&chars, &open, i) {
            Some(a) => a,
            None => {
                assert(done + expression_bodies(chars@, i as int) =~= done);
                break ;
            },
        };
        let b = match find_from(&chars, &close, a + 2) {
            Some(b) => b,
            None => {
                assert(done + expression_bodies(chars@, i as int) =~= done);
                break ;
            },
        };
        let token = variable_token(&chars, a + 2, b);
        let ghost body = chars@.subrange(a + 2, b as int);
        let ghost before = char_views(found@);
        proof {
            assert(done.push(body) + expression_bodies(chars@, b + 2) =~= done + (seq![body]
                + expression_bodies(chars@, b + 2)));
            assert(done.push(body).drop_last() =~= done);
            assert(variables_of(done.push(body), done.len() as int) == variables_of(
                done,
                done.len() as int,
            )) by {
                lemma_variables_prefix(done.push(body), done, done.len() as int);
            }
        }
        if token.len() > 0 && !is_keyword_token(&token) && !holds(&found, &token) {
            found.push(token);
            assert(char_views(found@) =~= before.push(variable_of(body)));
        }
        proof {
            done = done.push(body);
        }
        i = b + 2;
    }
    let mut variables: Vec<String> = Vec::new();
    let mut k: usize = 0;
    while k < found.len()
        invariant
            k <= found.len(),
            string_views(variables@) == char_views(found@).take(k as int),
        decreases found.len() - k,
    {
        let ghost before = string_views(variables@);
        variables.push(from_chars(&found[k]));
        assert(string_views(variables@) =~= before.push(found@[k as int]@));
        assert(char_views(found@).take(k + 1) =~= char_views(found@).take(k as int).push(
            found@[k as int]@,
        ));
        k += 1;
    }
    assert(char_views(found@).take(found.len() as int) =~= char_views(found@));
    variables
}

/// The variables of the first `n` expressions depend on those expressions
/// only.
pub proof fn lemma_variables_prefix(a: Seq<Seq<char>>, b: Seq<Seq<char>>, n: int)
    requires
        0 <= n <= a.len(),
        n <= b.len(),
        forall|k: int| 0 <= k < n ==> a[k] == b[k],
    ensures
        variables_of(a, n) == variables_of(b, n),
    decreases n,
{
    if n > 0 {
        lemma_variables_prefix(a, b, n - 1);
    }
}

} // verus!
