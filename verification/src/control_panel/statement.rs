//! The control-panel grammar.
//!
//! ```text
//! query     := blank* "select" blank+ command
//! command   := "1" tail | "pgtest_release" blank* "(" blank* argument
//! argument  := token close
//! close     := blank* ")" tail
//! token     := "'" (character | "''")* "'" | "$1" [blank* "::" blank* "text"]
//! tail      := blank* [";" blank*]
//! ```
//!
//! Keywords are matched without regard to ASCII case. A quote inside a literal
//! is written twice.
use vstd::prelude::*;

use crate::text;

verus! {

/// A command of the control panel.
#[derive(Debug, PartialEq, Eq)]
pub enum PgTestQueryTypeControlStatement {
    /// Release a lease.
    Release(LeaseArgument),
    /// Answer `1`.
    Ping,
}

/// How a release names its lease.
#[derive(Debug, PartialEq, Eq)]
pub enum LeaseArgument {
    /// The lease ID itself, with doubled quotes already collapsed.
    Literal(String),
    /// A bound parameter, counted from zero.
    Parameter { index: usize },
}

/// The query is no control-panel command.
#[derive(Debug, Clone, Copy, PartialEq, Eq, Structural)]
pub struct InvalidControlQuery;

/// What a [`LeaseArgument`] says.
pub enum LeaseArgumentView {
    Literal(Seq<char>),
    Parameter { index: nat },
}

/// What a [`PgTestQueryTypeControlStatement`] says.
pub enum ControlStatementView {
    Release(LeaseArgumentView),
    Ping,
}

impl View for LeaseArgument {
    type V = LeaseArgumentView;

    open spec fn view(&self) -> LeaseArgumentView {
        match self {
            LeaseArgument::Literal(text) => LeaseArgumentView::Literal(text@),
            LeaseArgument::Parameter { index } => LeaseArgumentView::Parameter {
                index: *index as nat,
            },
        }
    }
}

impl View for PgTestQueryTypeControlStatement {
    type V = ControlStatementView;

    open spec fn view(&self) -> ControlStatementView {
        match self {
            PgTestQueryTypeControlStatement::Release(argument) => ControlStatementView::Release(
                argument@,
            ),
            PgTestQueryTypeControlStatement::Ping => ControlStatementView::Ping,
        }
    }
}

impl Clone for LeaseArgument {
    fn clone(&self) -> (copy: LeaseArgument)
        ensures
            copy@ == self@,
    {
        match self {
            LeaseArgument::Literal(text) => LeaseArgument::Literal(text.clone()),
            LeaseArgument::Parameter { index } => LeaseArgument::Parameter { index: *index },
        }
    }
}

impl Clone for PgTestQueryTypeControlStatement {
    fn clone(&self) -> (copy: PgTestQueryTypeControlStatement)
        ensures
            copy@ == self@,
    {
        match self {
            PgTestQueryTypeControlStatement::Release(argument) =>
            PgTestQueryTypeControlStatement::Release(argument.clone()),
            PgTestQueryTypeControlStatement::Ping => PgTestQueryTypeControlStatement::Ping,
        }
    }
}

/// Space, tab, carriage return or line feed.
pub open spec fn is_space(c: char) -> bool {
    c == ' ' || c == '\t' || c == '\r' || c == '\n'
}

/// Nothing but spaces.
pub open spec fn blank(s: Seq<char>) -> bool {
    forall|i: int| 0 <= i < s.len() ==> is_space(#[trigger] s[i])
}

/// `c` with an ASCII capital turned into its small letter.
pub open spec fn lower(c: char) -> char {
    if 'A' <= c && c <= 'Z' {
        (c as u32 + 32) as char
    } else {
        c
    }
}

/// `s` is `word`, up to ASCII case.
pub open spec fn spells(s: Seq<char>, word: Seq<char>) -> bool {
    &&& s.len() == word.len()
    &&& forall|i: int| 0 <= i < s.len() ==> lower(#[trigger] s[i]) == word[i]
}

/// `content` with every quote written twice.
pub open spec fn doubled(content: Seq<char>) -> Seq<char>
    decreases content.len(),
{
    if content.len() == 0 {
        seq![]
    } else if content[0] == '\'' {
        seq!['\'', '\''] + doubled(content.skip(1))
    } else {
        seq![content[0]] + doubled(content.skip(1))
    }
}

/// The SQL literal that stands for `content`.
pub open spec fn quoted(content: Seq<char>) -> Seq<char> {
    seq!['\''] + doubled(content) + seq!['\'']
}

/// `s` is the one supported parameter, with or without its cast to `text`.
pub open spec fn is_parameter(s: Seq<char>) -> bool {
    ||| s == "$1"@
    ||| exists|before: Seq<char>, after: Seq<char>, name: Seq<char>|
        is_cast_parameter(s, before, after, name)
}

/// `s` is `$1::text`, with blanks round the `::`.
pub open spec fn is_cast_parameter(
    s: Seq<char>,
    before: Seq<char>,
    after: Seq<char>,
    name: Seq<char>,
) -> bool {
    &&& s == "$1"@ + before + "::"@ + after + name
    &&& blank(before)
    &&& blank(after)
    &&& spells(name, "text"@)
}

/// `s` is the token that stands for `argument`.
pub open spec fn is_token(s: Seq<char>, argument: LeaseArgumentView) -> bool {
    match argument {
        LeaseArgumentView::Literal(content) => s == quoted(content),
        LeaseArgumentView::Parameter { index } => index == 0 && is_parameter(s),
    }
}

/// Blanks with at most one semicolon among them.
pub open spec fn is_tail(s: Seq<char>) -> bool {
    ||| blank(s)
    ||| exists|before: Seq<char>, after: Seq<char>|
        blank(before) && blank(after) && s == #[trigger] (before + seq![';'] + after)
}

/// `s` is the closing bracket of a release and a tail.
pub open spec fn is_close(s: Seq<char>) -> bool {
    exists|gap: Seq<char>, tail: Seq<char>|
        blank(gap) && is_tail(tail) && s == #[trigger] (gap + seq![')'] + tail)
}

/// `s` is the token of `argument` and what closes the release.
pub open spec fn is_argument(s: Seq<char>, argument: LeaseArgumentView) -> bool {
    exists|token: Seq<char>, rest: Seq<char>|
        is_token(token, argument) && is_close(rest) && s == #[trigger] (token + rest)
}

/// `s` is what follows `select` in `statement`.
pub open spec fn is_command(s: Seq<char>, statement: ControlStatementView) -> bool {
    match statement {
        ControlStatementView::Ping => s.len() > 0 && s[0] == '1' && is_tail(s.skip(1)),
        ControlStatementView::Release(argument) => exists|
            name: Seq<char>,
            before: Seq<char>,
            after: Seq<char>,
            rest: Seq<char>,
        | release_parts(s, argument, name, before, after, rest),
    }
}

/// `s` is `name`, an opening bracket with blanks round it, and `rest`, which
/// holds `argument`.
pub open spec fn release_parts(
    s: Seq<char>,
    argument: LeaseArgumentView,
    name: Seq<char>,
    before: Seq<char>,
    after: Seq<char>,
    rest: Seq<char>,
) -> bool {
    &&& s == name + before + seq!['('] + after + rest
    &&& spells(name, "pgtest_release"@)
    &&& blank(before)
    &&& blank(after)
    &&& is_argument(rest, argument)
}

/// `query` is a way to write `statement`.
pub open spec fn is_query(query: Seq<char>, statement: ControlStatementView) -> bool {
    exists|lead: Seq<char>, word: Seq<char>, gap: Seq<char>, rest: Seq<char>|
        query_parts(query, statement, lead, word, gap, rest)
}

/// `query` is a way to write no statement at all.
pub open spec fn writes_nothing(query: Seq<char>) -> bool {
    forall|statement: ControlStatementView| !is_query(query, statement)
}

/// `query` is `lead`, the keyword `word`, a `gap` and the command `rest`.
pub open spec fn query_parts(
    query: Seq<char>,
    statement: ControlStatementView,
    lead: Seq<char>,
    word: Seq<char>,
    gap: Seq<char>,
    rest: Seq<char>,
) -> bool {
    &&& query == lead + word + gap + rest
    &&& blank(lead)
    &&& spells(word, "select"@)
    &&& blank(gap)
    &&& gap.len() > 0
    &&& is_command(rest, statement)
}

/// `s` is empty or starts with something other than a space.
spec fn solid(s: Seq<char>) -> bool {
    s.len() == 0 || !is_space(s[0])
}

/// Blanks followed by something solid can be told apart in one way only.
proof fn lemma_blank_split(w1: Seq<char>, r1: Seq<char>, w2: Seq<char>, r2: Seq<char>)
    requires
        w1 + r1 == w2 + r2,
        blank(w1),
        blank(w2),
        solid(r1),
        solid(r2),
    ensures
        w1 == w2,
        r1 == r2,
{
    let s = w1 + r1;
    if w1.len() < w2.len() {
        assert(s[w1.len() as int] == r1[0]);
        assert(s[w1.len() as int] == w2[w1.len() as int]);
    }
    if w2.len() < w1.len() {
        assert(s[w2.len() as int] == r2[0]);
        assert(s[w2.len() as int] == w1[w2.len() as int]);
    }
    assert(w1 =~= s.take(w1.len() as int));
    assert(w2 =~= s.take(w1.len() as int));
    assert(r1 =~= s.skip(w1.len() as int));
    assert(r2 =~= s.skip(w1.len() as int));
}

/// `s` is empty or does not start with a quote.
spec fn unquoted(s: Seq<char>) -> bool {
    s.len() == 0 || s[0] != '\''
}

/// A literal's content and what follows it can be told apart in one way only.
proof fn lemma_literal_split(v1: Seq<char>, r1: Seq<char>, v2: Seq<char>, r2: Seq<char>)
    requires
        doubled(v1) + seq!['\''] + r1 == doubled(v2) + seq!['\''] + r2,
        unquoted(r1),
        unquoted(r2),
    ensures
        v1 == v2,
        r1 == r2,
    decreases v1.len(),
{
    let s = doubled(v1) + seq!['\''] + r1;
    let t = doubled(v2) + seq!['\''] + r2;
    if v1.len() == 0 && v2.len() == 0 {
        assert(s.skip(1) =~= r1);
        assert(t.skip(1) =~= r2);
        assert(v1 =~= v2);
    } else if v1.len() == 0 {
        assert(s[0] == '\'');
        assert(t[0] == v2[0]);
        assert(t[1] == '\'');
        assert(s[1] == r1[0]);
    } else if v2.len() == 0 {
        assert(t[0] == '\'');
        assert(s[0] == v1[0]);
        assert(s[1] == '\'');
        assert(t[1] == r2[0]);
    } else {
        assert(s[0] == v1[0]);
        assert(t[0] == v2[0]);
        let k: int = if v1[0] == '\'' { 2 } else { 1 };
        assert(s.skip(k) =~= doubled(v1.skip(1)) + seq!['\''] + r1);
        assert(t.skip(k) =~= doubled(v2.skip(1)) + seq!['\''] + r2);
        lemma_literal_split(v1.skip(1), r1, v2.skip(1), r2);
        assert(v1 =~= seq![v1[0]] + v1.skip(1));
        assert(v2 =~= seq![v2[0]] + v2.skip(1));
    }
}

/// Doubled content on its own does not hold a closing quote.
proof fn lemma_literal_open(v: Seq<char>, w: Seq<char>, r: Seq<char>)
    requires
        unquoted(r),
    ensures
        doubled(v) != doubled(w) + seq!['\''] + r,
    decreases v.len(),
{
    let s = doubled(v);
    let t = doubled(w) + seq!['\''] + r;
    if v.len() == 0 {
        assert(t.len() > 0);
    } else if s == t {
        if w.len() == 0 {
            assert(t[0] == '\'');
            assert(s[0] == v[0]);
            assert(s[1] == '\'');
            assert(t[1] == r[0]);
        } else {
            assert(s[0] == v[0]);
            assert(t[0] == w[0]);
            let k: int = if v[0] == '\'' { 2 } else { 1 };
            assert(s.skip(k) =~= doubled(v.skip(1)));
            assert(t.skip(k) =~= doubled(w.skip(1)) + seq!['\''] + r);
            lemma_literal_open(v.skip(1), w.skip(1), r);
        }
    }
}

/// Doubling goes character by character from the end as well.
proof fn lemma_doubled_push(v: Seq<char>, c: char)
    ensures
        doubled(v.push(c)) == doubled(v) + (if c == '\'' {
            seq!['\'', '\'']
        } else {
            seq![c]
        }),
    decreases v.len(),
{
    let tail = if c == '\'' {
        seq!['\'', '\'']
    } else {
        seq![c]
    };
    if v.len() == 0 {
        assert(v.push(c).skip(1) =~= Seq::<char>::empty());
        assert(doubled(Seq::<char>::empty()) =~= Seq::<char>::empty());
        assert(doubled(v.push(c)) =~= tail);
        assert(doubled(v) + tail =~= tail);
    } else {
        assert(v.push(c).skip(1) =~= v.skip(1).push(c));
        lemma_doubled_push(v.skip(1), c);
        assert(doubled(v.push(c)) =~= doubled(v) + tail);
    }
}

/// The first position at or after `from` that holds no space.
fn skip_blanks(q: &Vec<char>, from: usize) -> (to: usize)
    requires
        from <= q@.len(),
    ensures
        from <= to <= q@.len(),
        blank(q@.subrange(from as int, to as int)),
        solid(q@.skip(to as int)),
        q@.skip(from as int) == q@.subrange(from as int, to as int) + q@.skip(to as int),
{
    let mut to: usize = from;
    while to < q.len() && (q[to] == ' ' || q[to] == '\t' || q[to] == '\r' || q[to] == '\n')
        invariant
            from <= to <= q@.len(),
            blank(q@.subrange(from as int, to as int)),
        decreases q@.len() - to,
    {
        assert(q@.subrange(from as int, to + 1) =~= q@.subrange(from as int, to as int).push(
            q@[to as int],
        ));
        to += 1;
    }
    assert(q@.skip(from as int) =~= q@.subrange(from as int, to as int) + q@.skip(to as int));
    to
}

/// Whether `c` is `letter`, up to ASCII case.
fn matches_letter(c: char, letter: char) -> (same: bool)
    ensures
        same == (lower(c) == letter),
{
    if 'A' <= c && c <= 'Z' {
        c as u32 + 32 == letter as u32
    } else {
        c == letter
    }
}

/// Whether `word` stands at position `i`, up to ASCII case.
fn spells_at(q: &Vec<char>, i: usize, word: &str) -> (found: bool)
    requires
        i <= q@.len(),
    ensures
        found == (i + word@.len() <= q@.len() && spells(
            q@.subrange(i as int, i + word@.len()),
            word@,
        )),
{
    let letters = text::to_chars(word);
    if q.len() - i < letters.len() {
        return false;
    }
    let end: usize = i + letters.len();
    let ghost span = q@.subrange(i as int, end as int);
    let mut k: usize = 0;
    while k < letters.len()
        invariant
            k <= letters@.len(),
            letters@ == word@,
            end == i + letters@.len(),
            end <= q@.len(),
            span == q@.subrange(i as int, end as int),
            forall|m: int| 0 <= m < k ==> lower(#[trigger] span[m]) == letters@[m],
        decreases letters@.len() - k,
    {
        assert(span[k as int] == q@[i + k]);
        if !matches_letter(q[i + k], letters[k]) {
            return false;
        }
        k += 1;
    }
    true
}

/// Whether everything from position `i` on is a tail.
fn parse_tail(q: &Vec<char>, i: usize) -> (accepted: bool)
    requires
        i <= q@.len(),
    ensures
        accepted == is_tail(q@.skip(i as int)),
{
    let s = Ghost(q@.skip(i as int));
    let j = skip_blanks(q, i);
    let ghost w = q@.subrange(i as int, j as int);
    let ghost r = q@.skip(j as int);
    if j == q.len() {
        assert(s@ =~= w);
        return true;
    }
    assert(s@[j - i] == q@[j as int]);
    if q[j] != ';' {
        proof {
            assert forall|before: Seq<char>, after: Seq<char>|
                blank(before) && blank(after) implies s@ != #[trigger] (before + seq![';']
                + after) by {
                if s@ == before + seq![';'] + after {
                    assert(before + seq![';'] + after =~= before + (seq![';'] + after));
                    lemma_blank_split(w, r, before, seq![';'] + after);
                    assert(r[0] == ';');
                }
            }
        }
        return false;
    }
    let k = skip_blanks(q, j + 1);
    let ghost w2 = q@.subrange(j + 1, k as int);
    if k == q.len() {
        assert(s@ =~= w + seq![';'] + w2);
        true
    } else {
        proof {
            assert forall|before: Seq<char>, after: Seq<char>|
                blank(before) && blank(after) implies s@ != #[trigger] (before + seq![';']
                + after) by {
                if s@ == before + seq![';'] + after {
                    assert(before + seq![';'] + after =~= before + (seq![';'] + after));
                    lemma_blank_split(w, r, before, seq![';'] + after);
                    assert(r.skip(1) =~= after);
                    assert(after[k - j - 1] == q@[k as int]);
                    assert(q@.skip(k as int)[0] == q@[k as int]);
                }
            }
        }
        false
    }
}

/// Whether everything from position `i` on closes a release.
fn parse_close(q: &Vec<char>, i: usize) -> (accepted: bool)
    requires
        i <= q@.len(),
    ensures
        accepted == is_close(q@.skip(i as int)),
{
    let s = Ghost(q@.skip(i as int));
    let j = skip_blanks(q, i);
    let ghost w = q@.subrange(i as int, j as int);
    let ghost r = q@.skip(j as int);
    let accepted = j < q.len() && q[j] == ')' && parse_tail(q, j + 1);
    proof {
        if accepted {
            assert(s@ =~= w + seq![')'] + q@.skip(j + 1));
        } else if is_close(s@) {
            let (gap, tail) = choose|gap: Seq<char>, tail: Seq<char>|
                blank(gap) && is_tail(tail) && s@ == #[trigger] (gap + seq![')'] + tail);
            assert(gap + seq![')'] + tail =~= gap + (seq![')'] + tail));
            lemma_blank_split(w, r, gap, seq![')'] + tail);
            assert(r[0] == ')');
            assert(r.skip(1) =~= tail);
            assert(q@.skip(j + 1) =~= r.skip(1));
        }
    }
    accepted
}

/// What closes a release does not start with a quote.
proof fn lemma_close_unquoted(s: Seq<char>)
    requires
        is_close(s),
    ensures
        unquoted(s),
{
    let (gap, tail) = choose|gap: Seq<char>, tail: Seq<char>|
        blank(gap) && is_tail(tail) && s == #[trigger] (gap + seq![')'] + tail);
    if gap.len() > 0 {
        assert(s[0] == gap[0]);
    } else {
        assert(s[0] == ')');
    }
}

/// Read literal content from position `i`, which follows the opening quote.
/// Returns the content and the position behind the closing quote.
fn parse_literal(q: &Vec<char>, i: usize) -> (r: Option<(String, usize)>)
    requires
        i <= q@.len(),
    ensures
        match r {
            Some((content, end)) => {
                &&& i < end <= q@.len()
                &&& q@.skip(i as int) == doubled(content@) + seq!['\''] + q@.skip(end as int)
                &&& unquoted(q@.skip(end as int))
            },
            None => forall|content: Seq<char>, rest: Seq<char>|
                unquoted(rest) ==> q@.skip(i as int) != #[trigger] (doubled(content) + seq!['\'']
                    + rest),
        },
{
    let mut content = String::new();
    let mut j: usize = i;
    assert(q@.skip(i as int) =~= doubled(content@) + q@.skip(j as int));
    while j < q.len()
        invariant
            i <= j <= q@.len(),
            q@.skip(i as int) == doubled(content@) + q@.skip(j as int),
        decreases q@.len() - j,
    {
        let ghost seen = content@;
        let ghost rest = q@.skip(j as int);
        if q[j] == '\'' {
            if j + 1 < q.len() && q[j + 1] == '\'' {
                content.push('\'');
                proof {
                    lemma_doubled_push(seen, '\'');
                    assert(rest =~= seq!['\'', '\''] + q@.skip(j + 2));
                    assert(q@.skip(i as int) =~= doubled(content@) + q@.skip(j + 2));
                }
                j += 2;
            } else {
                assert(rest =~= seq!['\''] + q@.skip(j + 1));
                assert(q@.skip(i as int) =~= doubled(content@) + seq!['\''] + q@.skip(j + 1));
                return Some((content, j + 1));
            }
        } else {
            content.push(q[j]);
            proof {
                lemma_doubled_push(seen, q@[j as int]);
                assert(rest =~= seq![q@[j as int]] + q@.skip(j + 1));
                assert(q@.skip(i as int) =~= doubled(content@) + q@.skip(j + 1));
            }
            j += 1;
        }
    }
    proof {
        assert(q@.skip(i as int) =~= doubled(content@));
        assert forall|other: Seq<char>, rest: Seq<char>| unquoted(rest) implies q@.skip(i as int)
            != #[trigger] (doubled(other) + seq!['\''] + rest) by {
            lemma_literal_open(content@, other, rest);
        }
    }
    None
}

/// A literal starts with a quote, a parameter with `$1`.
proof fn lemma_token_start(token: Seq<char>, argument: LeaseArgumentView)
    requires
        is_token(token, argument),
    ensures
        token.len() >= 2,
        argument is Literal ==> token[0] == '\'',
        argument is Parameter ==> token[0] == '$' && token[1] == '1',
{
    reveal_strlit("$1");
    if argument is Parameter && token != "$1"@ {
        let (before, after, name) = choose|before: Seq<char>, after: Seq<char>, name: Seq<char>|
            is_cast_parameter(token, before, after, name);
        assert(token =~= "$1"@ + (before + "::"@ + after + name));
    }
}

/// A parameter argument that is not closed right behind `$1` goes on with `::`.
proof fn lemma_parameter_cast(s: Seq<char>, w: Seq<char>, r: Seq<char>)
    requires
        s.len() >= 2,
        s.skip(2) == w + r,
        blank(w),
        solid(r),
        is_argument(s, LeaseArgumentView::Parameter { index: 0 }),
        !is_close(s.skip(2)),
    ensures
        r.len() >= 2,
        r.take(2) == "::"@,
        exists|after: Seq<char>, name: Seq<char>, rest: Seq<char>|
            blank(after) && spells(name, "text"@) && is_close(rest) && r.skip(2)
                == #[trigger] (after + (name + rest)),
{
    reveal_strlit("$1");
    reveal_strlit("::");
    let (token, rest) = choose|token: Seq<char>, rest: Seq<char>|
        is_token(token, LeaseArgumentView::Parameter { index: 0 }) && is_close(rest) && s
            == #[trigger] (token + rest);
    if token == "$1"@ {
        assert(s.skip(2) =~= rest);
    }
    let (before, after, name) = choose|before: Seq<char>, after: Seq<char>, name: Seq<char>|
        is_cast_parameter(token, before, after, name);
    let tail = after + (name + rest);
    assert(s.skip(2) =~= before + ("::"@ + tail));
    assert(("::"@ + tail)[0] == ':');
    lemma_blank_split(w, r, before, "::"@ + tail);
    assert(r.skip(2) =~= tail);
    assert(r.take(2) =~= "::"@);
}

/// Behind the `::` of a cast parameter stand `text` and what closes the release.
proof fn lemma_parameter_type(
    w: Seq<char>,
    r: Seq<char>,
    after: Seq<char>,
    name: Seq<char>,
    rest: Seq<char>,
)
    requires
        w + r == after + (name + rest),
        blank(w),
        solid(r),
        blank(after),
        spells(name, "text"@),
    ensures
        r.len() >= 4,
        r.take(4) == name,
        r.skip(4) == rest,
{
    reveal_strlit("text");
    assert((name + rest)[0] == name[0]);
    assert(lower(name[0]) == 't');
    lemma_blank_split(w, r, after, name + rest);
    assert(r.take(4) =~= name);
    assert(r.skip(4) =~= rest);
}

/// Read the argument of a release from position `i` to the end of the query.
fn parse_argument(q: &Vec<char>, i: usize) -> (r: Option<LeaseArgument>)
    requires
        i <= q@.len(),
    ensures
        match r {
            Some(argument) => is_argument(q@.skip(i as int), argument@),
            None => forall|argument: LeaseArgumentView| !is_argument(q@.skip(i as int), argument),
        },
{
    let ghost s = q@.skip(i as int);
    proof {
        reveal_strlit("$1");
        reveal_strlit("::");
        reveal_strlit("text");
    }
    if i < q.len() && q[i] == '\'' {
        let literal = parse_literal(q, i + 1);
        let ghost inner = q@.skip(i + 1);
        assert(s =~= seq!['\''] + inner);
        match literal {
            Some((content, end)) => {
                let ghost rest = q@.skip(end as int);
                if parse_close(q, end) {
                    assert(s =~= quoted(content@) + rest);
                    return Some(LeaseArgument::Literal(content));
                }
                proof {
                    assert forall|argument: LeaseArgumentView| !is_argument(s, argument) by {
                        if is_argument(s, argument) {
                            let (token, other) = choose|token: Seq<char>, other: Seq<char>|
                                is_token(token, argument) && is_close(other) && s == #[trigger] (
                                token + other);
                            lemma_token_start(token, argument);
                            assert(s[0] == token[0]);
                            let value = argument->Literal_0;
                            assert(s.skip(1) =~= inner);
                            assert(s.skip(1) =~= doubled(value) + seq!['\''] + other);
                            lemma_close_unquoted(other);
                            lemma_literal_split(content@, rest, value, other);
                        }
                    }
                }
            },
            None => {
                proof {
                    assert forall|argument: LeaseArgumentView| !is_argument(s, argument) by {
                        if is_argument(s, argument) {
                            let (token, other) = choose|token: Seq<char>, other: Seq<char>|
                                is_token(token, argument) && is_close(other) && s == #[trigger] (
                                token + other);
                            lemma_token_start(token, argument);
                            assert(s[0] == token[0]);
                            let value = argument->Literal_0;
                            assert(s.skip(1) =~= inner);
                            assert(s.skip(1) =~= doubled(value) + seq!['\''] + other);
                            lemma_close_unquoted(other);
                        }
                    }
                }
            },
        }
        return None;
    }
    if q.len() - i < 2 || q[i] != '$' || q[i + 1] != '1' {
        proof {
            assert forall|argument: LeaseArgumentView| !is_argument(s, argument) by {
                if is_argument(s, argument) {
                    let (token, other) = choose|token: Seq<char>, other: Seq<char>|
                        is_token(token, argument) && is_close(other) && s == #[trigger] (token
                            + other);
                    lemma_token_start(token, argument);
                    assert(s.len() >= 2 && s.len() == q@.len() - i);
                    assert(s[0] == token[0]);
                    assert(s[0] == q@[i as int]);
                    if argument is Parameter {
                        assert(s[1] == token[1]);
                        assert(s[1] == q@[i + 1]);
                    }
                }
            }
        }
        return None;
    }
    assert(s.skip(2) =~= q@.skip(i + 2));
    assert(s =~= "$1"@ + q@.skip(i + 2));
    if parse_close(q, i + 2) {
        assert(is_token("$1"@, LeaseArgumentView::Parameter { index: 0 }));
        return Some(LeaseArgument::Parameter { index: 0 });
    }
    let j = skip_blanks(q, i + 2);
    let ghost w = q@.subrange(i + 2, j as int);
    let ghost r = q@.skip(j as int);
    let cast = q.len() - j >= 2 && q[j] == ':' && q[j + 1] == ':';
    let k = if cast {
        skip_blanks(q, j + 2)
    } else {
        j
    };
    let ghost w2 = if cast {
        q@.subrange(j + 2, k as int)
    } else {
        Seq::empty()
    };
    let ghost r2 = if cast {
        q@.skip(k as int)
    } else {
        Seq::empty()
    };
    assert(cast ==> r.skip(2) =~= q@.skip(j + 2));
    assert(cast ==> r =~= "::"@ + q@.skip(j + 2));
    let accepted = cast && spells_at(q, k, "text") && parse_close(q, k + 4);
    proof {
        let parameter = LeaseArgumentView::Parameter { index: 0 };
        if accepted {
            let name = q@.subrange(k as int, k + 4);
            let rest = q@.skip(k + 4);
            let token = "$1"@ + w + "::"@ + w2 + name;
            assert(is_cast_parameter(token, w, w2, name));
            assert(s =~= token + rest);
            assert(is_token(token, parameter));
        } else {
            assert forall|argument: LeaseArgumentView| !is_argument(s, argument) by {
                if is_argument(s, argument) {
                    let (token, other) = choose|token: Seq<char>, other: Seq<char>|
                        is_token(token, argument) && is_close(other) && s == #[trigger] (token
                            + other);
                    lemma_token_start(token, argument);
                    assert(s[0] == token[0]);
                    assert(argument == parameter);
                    lemma_parameter_cast(s, w, r);
                    assert(r.take(2)[0] == r[0] && r.take(2)[1] == r[1]);
                    let (after, name, rest) = choose|
                        after: Seq<char>,
                        name: Seq<char>,
                        rest: Seq<char>,
                    |
                        blank(after) && spells(name, "text"@) && is_close(rest) && r.skip(2)
                            == #[trigger] (after + (name + rest));
                    lemma_parameter_type(w2, r2, after, name, rest);
                    assert(r2.take(4) =~= q@.subrange(k as int, k + 4));
                    assert(r2.skip(4) =~= q@.skip(k + 4));
                }
            }
        }
    }
    if accepted {
        Some(LeaseArgument::Parameter { index: 0 })
    } else {
        None
    }
}

/// Read a release from position `i` to the end of the query.
fn parse_release(q: &Vec<char>, i: usize) -> (r: Option<LeaseArgument>)
    requires
        i <= q@.len(),
    ensures
        match r {
            Some(argument) => is_command(
                q@.skip(i as int),
                ControlStatementView::Release(argument@),
            ),
            None => forall|argument: LeaseArgumentView|
                !is_command(q@.skip(i as int), ControlStatementView::Release(argument)),
        },
{
    let ghost s = q@.skip(i as int);
    let length: usize = q.len();
    proof {
        reveal_strlit("pgtest_release");
    }
    if !spells_at(q, i, "pgtest_release") {
        proof {
            assert forall|argument: LeaseArgumentView|
                !is_command(s, ControlStatementView::Release(argument)) by {
                if is_command(s, ControlStatementView::Release(argument)) {
                    let (name, before, after, rest) = choose|
                        name: Seq<char>,
                        before: Seq<char>,
                        after: Seq<char>,
                        rest: Seq<char>,
                    | release_parts(s, argument, name, before, after, rest);
                    assert(s.len() == length - i && name.len() == 14);
                    assert(name =~= q@.subrange(i as int, i + 14));
                }
            }
        }
        return None;
    }
    let start: usize = i + 14;
    let j = skip_blanks(q, start);
    let ghost name = q@.subrange(i as int, start as int);
    let ghost w = q@.subrange(start as int, j as int);
    let ghost r = q@.skip(j as int);
    assert(s =~= name + (w + r));
    if j == q.len() || q[j] != '(' {
        proof {
            assert forall|argument: LeaseArgumentView|
                !is_command(s, ControlStatementView::Release(argument)) by {
                if is_command(s, ControlStatementView::Release(argument)) {
                    let (name2, before, after, rest) = choose|
                        name: Seq<char>,
                        before: Seq<char>,
                        after: Seq<char>,
                        rest: Seq<char>,
                    | release_parts(s, argument, name, before, after, rest);
                    lemma_release_split(s, argument, name, w, r, name2, before, after, rest);
                    assert(r[0] == q@[j as int]);
                }
            }
        }
        return None;
    }
    let k = skip_blanks(q, j + 1);
    let ghost w2 = q@.subrange(j + 1, k as int);
    let ghost r2 = q@.skip(k as int);
    assert(r =~= seq!['('] + (w2 + r2));
    let argument = parse_argument(q, k);
    proof {
        match &argument {
            Some(found) => {
                assert(s =~= name + w + seq!['('] + w2 + r2);
                assert(release_parts(s, found@, name, w, w2, r2));
            },
            None => {
                assert forall|other: LeaseArgumentView|
                    !is_command(s, ControlStatementView::Release(other)) by {
                    if is_command(s, ControlStatementView::Release(other)) {
                        let (name2, before, after, rest) = choose|
                            name: Seq<char>,
                            before: Seq<char>,
                            after: Seq<char>,
                            rest: Seq<char>,
                        | release_parts(s, other, name, before, after, rest);
                        lemma_release_split(s, other, name, w, r, name2, before, after, rest);
                        assert(r.skip(1) =~= w2 + r2);
                        lemma_argument_solid(rest, other);
                        lemma_blank_split(w2, r2, after, rest);
                    }
                }
            },
        }
    }
    argument
}

/// An argument does not start with a space.
proof fn lemma_argument_solid(s: Seq<char>, argument: LeaseArgumentView)
    requires
        is_argument(s, argument),
    ensures
        solid(s),
{
    let (token, rest) = choose|token: Seq<char>, rest: Seq<char>|
        is_token(token, argument) && is_close(rest) && s == #[trigger] (token + rest);
    lemma_token_start(token, argument);
    assert(s[0] == token[0]);
}

/// A release has its name, its opening bracket and its argument in one place.
proof fn lemma_release_split(
    s: Seq<char>,
    argument: LeaseArgumentView,
    name: Seq<char>,
    w: Seq<char>,
    r: Seq<char>,
    name2: Seq<char>,
    before: Seq<char>,
    after: Seq<char>,
    rest: Seq<char>,
)
    requires
        s == name + (w + r),
        name.len() == 14,
        blank(w),
        solid(r),
        release_parts(s, argument, name2, before, after, rest),
    ensures
        name == name2,
        w == before,
        r.len() > 0,
        r[0] == '(',
        r.skip(1) == after + rest,
{
    reveal_strlit("pgtest_release");
    assert(name =~= s.take(14));
    assert(name2 =~= s.take(14));
    let tail = seq!['('] + (after + rest);
    assert(s.skip(14) =~= w + r);
    assert(s.skip(14) =~= before + tail);
    lemma_blank_split(w, r, before, tail);
    assert(r.skip(1) =~= after + rest);
}

/// A command does not start with a space.
proof fn lemma_command_solid(s: Seq<char>, statement: ControlStatementView)
    requires
        is_command(s, statement),
    ensures
        solid(s),
        statement is Release ==> s.len() > 0 && lower(s[0]) == 'p',
        statement is Ping ==> s.len() > 0 && s[0] == '1',
{
    reveal_strlit("pgtest_release");
    if let ControlStatementView::Release(argument) = statement {
        let (name, before, after, rest) = choose|
            name: Seq<char>,
            before: Seq<char>,
            after: Seq<char>,
            rest: Seq<char>,
        | release_parts(s, argument, name, before, after, rest);
        assert(s[0] == name[0]);
        assert(lower(name[0]) == 'p');
    }
}

/// A query has its first keyword and its command in one place.
proof fn lemma_query_split(
    query: Seq<char>,
    statement: ControlStatementView,
    w: Seq<char>,
    r: Seq<char>,
    lead: Seq<char>,
    word: Seq<char>,
    gap: Seq<char>,
    rest: Seq<char>,
)
    requires
        query == w + r,
        blank(w),
        solid(r),
        query_parts(query, statement, lead, word, gap, rest),
    ensures
        w == lead,
        r.len() > 6,
        r.take(6) == word,
        is_space(r[6]),
        r.skip(6) == gap + rest,
        solid(rest),
{
    reveal_strlit("select");
    let tail = word + (gap + rest);
    assert(query =~= lead + tail);
    assert(tail[0] == word[0]);
    assert(lower(word[0]) == 's');
    lemma_blank_split(w, r, lead, tail);
    assert(r.take(6) =~= word);
    assert(r.skip(6) =~= gap + rest);
    assert(r[6] == gap[0]);
    lemma_command_solid(rest, statement);
}

/// A query is its lead, its first keyword, a gap and a command.
proof fn lemma_query_command(
    query: Seq<char>,
    w: Seq<char>,
    word: Seq<char>,
    w2: Seq<char>,
    r2: Seq<char>,
    statement: ControlStatementView,
)
    requires
        query == w + (word + (w2 + r2)),
        blank(w),
        spells(word, "select"@),
        blank(w2),
        solid(r2),
    ensures
        is_query(query, statement) == (w2.len() > 0 && is_command(r2, statement)),
{
    reveal_strlit("select");
    let r = word + (w2 + r2);
    if is_query(query, statement) {
        let (lead, word2, gap, rest) = choose|
            lead: Seq<char>,
            word: Seq<char>,
            gap: Seq<char>,
            rest: Seq<char>,
        | query_parts(query, statement, lead, word, gap, rest);
        assert(r[0] == word[0] && lower(word[0]) == 's');
        lemma_query_split(query, statement, w, r, lead, word2, gap, rest);
        assert(r.skip(6) =~= w2 + r2);
        lemma_blank_split(w2, r2, gap, rest);
    }
    if w2.len() > 0 && is_command(r2, statement) {
        assert(query =~= w + word + w2 + r2);
        assert(query_parts(query, statement, w, word, w2, r2));
    }
}

/// Read a command from position `i` to the end of the query.
fn parse_command(q: &Vec<char>, i: usize) -> (r: Option<PgTestQueryTypeControlStatement>)
    requires
        i <= q@.len(),
    ensures
        match r {
            Some(statement) => is_command(q@.skip(i as int), statement@),
            None => forall|statement: ControlStatementView|
                !is_command(q@.skip(i as int), statement),
        },
{
    let ghost s = q@.skip(i as int);
    if i < q.len() && q[i] == '1' {
        let accepted = parse_tail(q, i + 1);
        proof {
            assert(s.skip(1) =~= q@.skip(i + 1));
            assert forall|statement: ControlStatementView| #[trigger]
                is_command(s, statement) implies statement is Ping by {
                lemma_command_solid(s, statement);
            }
        }
        if accepted {
            return Some(PgTestQueryTypeControlStatement::Ping);
        }
        return None;
    }
    match parse_release(q, i) {
        Some(argument) => Some(PgTestQueryTypeControlStatement::Release(argument)),
        None => {
            proof {
                assert forall|statement: ControlStatementView| !is_command(s, statement) by {
                    if is_command(s, statement) {
                        lemma_command_solid(s, statement);
                        assert(s[0] == q@[i as int]);
                    }
                }
            }
            None
        },
    }
}

impl PgTestQueryTypeControlStatement {
    /// The statement that `query` writes; an error where it writes none.
    pub fn parse(query: &str) -> (r: Result<
        PgTestQueryTypeControlStatement,
        InvalidControlQuery,
    >)
        ensures
            match r {
                Ok(statement) => is_query(query@, statement@),
                Err(_) => writes_nothing(query@),
            },
    {
        let q = text::to_chars(query);
        let length: usize = q.len();
        proof {
            reveal_strlit("select");
        }
        let i = skip_blanks(&q, 0);
        let ghost w = q@.subrange(0, i as int);
        let ghost r = q@.skip(i as int);
        assert(query@ =~= w + r) by {
            assert(q@.skip(0) =~= q@);
        }
        if !spells_at(&q, i, "select") {
            proof {
                assert forall|statement: ControlStatementView| !is_query(query@, statement) by {
                    if is_query(query@, statement) {
                        let (lead, word, gap, rest) = choose|
                            lead: Seq<char>,
                            word: Seq<char>,
                            gap: Seq<char>,
                            rest: Seq<char>,
                        | query_parts(query@, statement, lead, word, gap, rest);
                        lemma_query_split(query@, statement, w, r, lead, word, gap, rest);
                        assert(r.len() == length - i);
                        assert(r.take(6) =~= q@.subrange(i as int, i + 6));
                    }
                }
            }
            return Err(InvalidControlQuery);
        }
        let start: usize = i + 6;
        let j = skip_blanks(&q, start);
        proof {
            let word = q@.subrange(i as int, start as int);
            let w2 = q@.subrange(start as int, j as int);
            let r2 = q@.skip(j as int);
            assert(r =~= word + (w2 + r2));
            assert forall|statement: ControlStatementView| #[trigger]
                is_query(query@, statement) == (w2.len() > 0 && is_command(r2, statement)) by {
                lemma_query_command(query@, w, word, w2, r2, statement);
            }
        }
        if j == start {
            return Err(InvalidControlQuery);
        }
        match parse_command(&q, j) {
            Some(statement) => Ok(statement),
            None => Err(InvalidControlQuery),
        }
    }
}

impl InvalidControlQuery {
    /// The text of the error.
    pub fn message(&self) -> (message: &'static str)
        ensures
            message@ == "unsupported control-panel command"@,
    {
        "unsupported control-panel command"
    }
}

/// No query can be read in two ways.
pub proof fn lemma_query_unambiguous(
    query: Seq<char>,
    first: ControlStatementView,
    second: ControlStatementView,
)
    requires
        is_query(query, first),
        is_query(query, second),
    ensures
        first == second,
{
    let (lead, word, gap, rest) = choose|
        lead: Seq<char>,
        word: Seq<char>,
        gap: Seq<char>,
        rest: Seq<char>,
    | query_parts(query, first, lead, word, gap, rest);
    let (lead2, word2, gap2, rest2) = choose|
        lead: Seq<char>,
        word: Seq<char>,
        gap: Seq<char>,
        rest: Seq<char>,
    | query_parts(query, second, lead, word, gap, rest);
    let tail = word + (gap + rest);
    assert(query =~= lead + tail);
    reveal_strlit("select");
    assert(tail[0] == word[0] && lower(word[0]) == 's');
    lemma_query_split(query, second, lead, tail, lead2, word2, gap2, rest2);
    assert(tail.skip(6) =~= gap + rest);
    lemma_command_solid(rest, first);
    lemma_command_solid(rest2, second);
    lemma_blank_split(gap, rest, gap2, rest2);
    if first is Release && second is Release {
        let one = first->Release_0;
        let two = second->Release_0;
        lemma_release_unambiguous(rest, one, two);
    }
}

/// No release can be read in two ways.
proof fn lemma_release_unambiguous(
    s: Seq<char>,
    first: LeaseArgumentView,
    second: LeaseArgumentView,
)
    requires
        is_command(s, ControlStatementView::Release(first)),
        is_command(s, ControlStatementView::Release(second)),
    ensures
        first == second,
{
    let (name, before, after, rest) = choose|
        name: Seq<char>,
        before: Seq<char>,
        after: Seq<char>,
        rest: Seq<char>,
    | release_parts(s, first, name, before, after, rest);
    let (name2, before2, after2, rest2) = choose|
        name: Seq<char>,
        before: Seq<char>,
        after: Seq<char>,
        rest: Seq<char>,
    | release_parts(s, second, name, before, after, rest);
    reveal_strlit("pgtest_release");
    let tail = seq!['('] + (after + rest);
    assert(s =~= name + (before + tail));
    lemma_release_split(s, second, name, before, tail, name2, before2, after2, rest2);
    assert(tail.skip(1) =~= after + rest);
    lemma_argument_solid(rest, first);
    lemma_argument_solid(rest2, second);
    lemma_blank_split(after, rest, after2, rest2);
    let (token, close) = choose|token: Seq<char>, close: Seq<char>|
        is_token(token, first) && is_close(close) && rest == #[trigger] (token + close);
    let (token2, close2) = choose|token: Seq<char>, close: Seq<char>|
        is_token(token, second) && is_close(close) && rest == #[trigger] (token + close);
    lemma_token_start(token, first);
    lemma_token_start(token2, second);
    assert(rest[0] == token[0] && rest[0] == token2[0]);
    if first is Literal {
        let v = first->Literal_0;
        let v2 = second->Literal_0;
        assert(rest.skip(1) =~= doubled(v) + seq!['\''] + close);
        assert(rest.skip(1) =~= doubled(v2) + seq!['\''] + close2);
        lemma_close_unquoted(close);
        lemma_close_unquoted(close2);
        lemma_literal_split(v, close, v2, close2);
    }
}

/// Every text can be released: quoting it gives the query that names it.
pub proof fn lemma_quoted_release_is_read_back(lease: Seq<char>)
    ensures
        is_query(
            "SELECT pgtest_release("@ + quoted(lease) + ")"@,
            ControlStatementView::Release(LeaseArgumentView::Literal(lease)),
        ),
{
    reveal_strlit("SELECT pgtest_release(");
    reveal_strlit(")");
    reveal_strlit("select");
    reveal_strlit("pgtest_release");
    let query = "SELECT pgtest_release("@ + quoted(lease) + ")"@;
    let argument = LeaseArgumentView::Literal(lease);
    let empty = Seq::<char>::empty();
    let word = seq!['S', 'E', 'L', 'E', 'C', 'T'];
    let gap = seq![' '];
    let name = "pgtest_release"@;
    let close = ")"@;
    assert(close =~= empty + seq![')'] + empty);
    assert(is_close(close));
    let arg = quoted(lease) + close;
    assert(is_argument(arg, argument));
    let rest = name + empty + seq!['('] + empty + arg;
    assert(release_parts(rest, argument, name, empty, empty, arg));
    assert(is_command(rest, ControlStatementView::Release(argument)));
    assert(query =~= empty + word + gap + rest);
    assert(query_parts(
        query,
        ControlStatementView::Release(argument),
        empty,
        word,
        gap,
        rest,
    ));
}

} // verus!
