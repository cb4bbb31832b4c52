//! What the control panel owes to its clients.
use vstd::prelude::*;
use vstd::utf8::*;

use crate::control_panel::protocol::{
    BindAction, BindRequest, BoundPortal, ControlAction, ControlQueryParser, PreparedStatement,
};
use crate::control_panel::response::{
    ControlError, ControlType, Field, FieldFormat, ParameterFault, ReleaseError, Reply,
};
use crate::control_panel::statement::{
    ControlStatementView, InvalidControlQuery, LeaseArgument, LeaseArgumentView,
    PgTestQueryTypeControlStatement,
};
use crate::control_panel::{protocol, response, statement};
use crate::lease::LeaseId;
use crate::{buffer, lease, text};

verus! {

/// `s` is made of spaces, tabs, carriage returns and line feeds.
pub open spec fn gaps(s: Seq<char>) -> bool {
    forall|i: int|
        0 <= i < s.len() ==> (#[trigger] s[i] == ' ' || s[i] == '\t' || s[i] == '\r' || s[i]
            == '\n')
}

/// `s` is `word` with any of its letters written as capitals.
pub open spec fn any_case(s: Seq<char>, word: Seq<char>) -> bool {
    &&& s.len() == word.len()
    &&& forall|i: int|
        0 <= i < s.len() ==> (#[trigger] s[i] == word[i] || ('a' <= word[i] && word[i] <= 'z'
            && s[i] as u32 + 32 == word[i] as u32))
}

/// `s` is a gap, or a semicolon between two gaps.
pub open spec fn ends_query(s: Seq<char>) -> bool {
    ||| gaps(s)
    ||| exists|before: Seq<char>, after: Seq<char>|
        gaps(before) && gaps(after) && s == #[trigger] (before + seq![';'] + after)
}

/// `token` writes `argument`: a quoted literal, or the first parameter, cast to
/// `text` or not.
pub open spec fn writes_argument(token: Seq<char>, argument: LeaseArgumentView) -> bool {
    match argument {
        LeaseArgumentView::Literal(content) => token == seq!['\''] + statement::doubled(content)
            + seq!['\''],
        LeaseArgumentView::Parameter { index } => index == 0 && (token == "$1"@ || exists|
            before: Seq<char>,
            after: Seq<char>,
            name: Seq<char>,
        | #[trigger] writes_cast(token, before, after, name)),
    }
}

/// `token` is the first parameter, cast to `text`.
pub open spec fn writes_cast(
    token: Seq<char>,
    before: Seq<char>,
    after: Seq<char>,
    name: Seq<char>,
) -> bool {
    &&& token == "$1"@ + before + "::"@ + after + name
    &&& gaps(before)
    &&& gaps(after)
    &&& any_case(name, "text"@)
}

/// `query` writes a ping in these parts.
pub open spec fn writes_ping(
    query: Seq<char>,
    lead: Seq<char>,
    word: Seq<char>,
    gap: Seq<char>,
    tail: Seq<char>,
) -> bool {
    &&& query == lead + word + gap + seq!['1'] + tail
    &&& gaps(lead)
    &&& any_case(word, "select"@)
    &&& gaps(gap)
    &&& gap.len() > 0
    &&& ends_query(tail)
}

/// The parts of a release.
pub struct ReleaseText {
    pub lead: Seq<char>,
    pub word: Seq<char>,
    pub gap: Seq<char>,
    pub name: Seq<char>,
    pub before: Seq<char>,
    pub inside: Seq<char>,
    pub token: Seq<char>,
    pub behind: Seq<char>,
    pub tail: Seq<char>,
}

/// `query` writes the release of what `argument` names in these parts.
pub open spec fn writes_release(
    query: Seq<char>,
    argument: LeaseArgumentView,
    t: ReleaseText,
) -> bool {
    &&& query == t.lead + t.word + t.gap + t.name + t.before + seq!['('] + t.inside + t.token
        + t.behind + seq![')'] + t.tail
    &&& gaps(t.lead)
    &&& any_case(t.word, "select"@)
    &&& gaps(t.gap)
    &&& t.gap.len() > 0
    &&& any_case(t.name, "pgtest_release"@)
    &&& gaps(t.before)
    &&& gaps(t.inside)
    &&& writes_argument(t.token, argument)
    &&& gaps(t.behind)
    &&& ends_query(t.tail)
}

/// Keywords may be written in any case, and in no other way.
pub proof fn lemma_spelling(s: Seq<char>, word: Seq<char>)
    requires
        forall|i: int| 0 <= i < word.len() ==> !('A' <= #[trigger] word[i] && word[i] <= 'Z'),
    ensures
        statement::spells(s, word) <==> any_case(s, word),
{
    if statement::spells(s, word) {
        assert forall|i: int| 0 <= i < s.len() implies (#[trigger] s[i] == word[i] || ('a'
            <= word[i] && word[i] <= 'z' && s[i] as u32 + 32 == word[i] as u32)) by {
            assert(statement::lower(s[i]) == word[i]);
        }
    }
    if any_case(s, word) {
        assert forall|i: int| 0 <= i < s.len() implies statement::lower(#[trigger] s[i])
            == word[i] by {
            assert(s[i] == word[i] || ('a' <= word[i] && word[i] <= 'z' && s[i] as u32 + 32
                == word[i] as u32));
        }
    }
}

/// Spelling of the three keywords.
proof fn lemma_keywords(s: Seq<char>)
    ensures
        statement::spells(s, "select"@) <==> any_case(s, "select"@),
        statement::spells(s, "pgtest_release"@) <==> any_case(s, "pgtest_release"@),
        statement::spells(s, "text"@) <==> any_case(s, "text"@),
{
    reveal_strlit("select");
    reveal_strlit("pgtest_release");
    reveal_strlit("text");
    lemma_spelling(s, "select"@);
    lemma_spelling(s, "pgtest_release"@);
    lemma_spelling(s, "text"@);
}

/// Gaps are made of the four blank characters, and any of them will do.
proof fn lemma_gaps(s: Seq<char>)
    ensures
        statement::blank(s) <==> gaps(s),
{
    if statement::blank(s) {
        assert forall|i: int| 0 <= i < s.len() implies (#[trigger] s[i] == ' ' || s[i] == '\t'
            || s[i] == '\r' || s[i] == '\n') by {
            assert(statement::is_space(s[i]));
        }
    }
    if gaps(s) {
        assert forall|i: int| 0 <= i < s.len() implies statement::is_space(#[trigger] s[i]) by {
            assert(s[i] == ' ' || s[i] == '\t' || s[i] == '\r' || s[i] == '\n');
        }
    }
}

proof fn lemma_tails(s: Seq<char>)
    ensures
        statement::is_tail(s) <==> ends_query(s),
{
    lemma_gaps(s);
    if statement::is_tail(s) && !statement::blank(s) {
        let (before, after) = choose|before: Seq<char>, after: Seq<char>|
            statement::blank(before) && statement::blank(after) && s == #[trigger] (before
                + seq![';'] + after);
        lemma_gaps(before);
        lemma_gaps(after);
        assert(s == before + seq![';'] + after);
    }
    if ends_query(s) && !gaps(s) {
        let (before, after) = choose|before: Seq<char>, after: Seq<char>|
            gaps(before) && gaps(after) && s == #[trigger] (before + seq![';'] + after);
        lemma_gaps(before);
        lemma_gaps(after);
        assert(s == before + seq![';'] + after);
    }
}

/// A query is a ping exactly when it is `select 1`, with gaps where they may be,
/// the keyword in any case, and at most one semicolon at its end.
pub proof fn lemma_pings_are_read(query: Seq<char>)
    ensures
        statement::is_query(query, ControlStatementView::Ping) <==> exists|
            lead: Seq<char>,
            word: Seq<char>,
            gap: Seq<char>,
            tail: Seq<char>,
        | #[trigger] writes_ping(query, lead, word, gap, tail),
{
    if statement::is_query(query, ControlStatementView::Ping) {
        let (lead, word, gap, rest) = choose|
            lead: Seq<char>,
            word: Seq<char>,
            gap: Seq<char>,
            rest: Seq<char>,
        | statement::query_parts(query, ControlStatementView::Ping, lead, word, gap, rest);
        let tail = rest.skip(1);
        lemma_gaps(lead);
        lemma_gaps(gap);
        lemma_keywords(word);
        lemma_tails(tail);
        assert(rest =~= seq!['1'] + tail);
        assert(query =~= lead + word + gap + seq!['1'] + tail);
        assert(writes_ping(query, lead, word, gap, tail));
    }
    if exists|lead: Seq<char>, word: Seq<char>, gap: Seq<char>, tail: Seq<char>| #[trigger]
        writes_ping(query, lead, word, gap, tail) {
        let (lead, word, gap, tail) = choose|
            lead: Seq<char>,
            word: Seq<char>,
            gap: Seq<char>,
            tail: Seq<char>,
        | #[trigger] writes_ping(query, lead, word, gap, tail);
        let rest = seq!['1'] + tail;
        lemma_gaps(lead);
        lemma_gaps(gap);
        lemma_keywords(word);
        lemma_tails(tail);
        assert(rest.skip(1) =~= tail);
        assert(query =~= lead + word + gap + rest);
        assert(statement::query_parts(
            query,
            ControlStatementView::Ping,
            lead,
            word,
            gap,
            rest,
        ));
    }
}

proof fn lemma_tokens(token: Seq<char>, argument: LeaseArgumentView)
    ensures
        statement::is_token(token, argument) <==> writes_argument(token, argument),
{
    if let LeaseArgumentView::Parameter { .. } = argument {
        if statement::is_parameter(token) && token != "$1"@ {
            let (before, after, name) = choose|
                before: Seq<char>,
                after: Seq<char>,
                name: Seq<char>,
            | statement::is_cast_parameter(token, before, after, name);
            lemma_gaps(before);
            lemma_gaps(after);
            lemma_keywords(name);
            assert(writes_cast(token, before, after, name));
        }
        if exists|before: Seq<char>, after: Seq<char>, name: Seq<char>| #[trigger]
            writes_cast(token, before, after, name) {
            let (before, after, name) = choose|
                before: Seq<char>,
                after: Seq<char>,
                name: Seq<char>,
            | #[trigger] writes_cast(token, before, after, name);
            lemma_gaps(before);
            lemma_gaps(after);
            lemma_keywords(name);
            assert(statement::is_cast_parameter(token, before, after, name));
        }
    }
}

/// A query is a release exactly when it is `select pgtest_release(..)` of a
/// quoted literal or of the first parameter, cast to `text` or not, with gaps
/// where they may be, keywords in any case, and at most one semicolon at its end.
pub proof fn lemma_releases_are_read(query: Seq<char>, argument: LeaseArgumentView)
    ensures
        statement::is_query(query, ControlStatementView::Release(argument)) <==> exists|
            t: ReleaseText,
        | #[trigger] writes_release(query, argument, t),
{
    let release = ControlStatementView::Release(argument);
    if statement::is_query(query, release) {
        let (lead, word, gap, rest) = choose|
            lead: Seq<char>,
            word: Seq<char>,
            gap: Seq<char>,
            rest: Seq<char>,
        | statement::query_parts(query, release, lead, word, gap, rest);
        let (name, before, inside, after) = choose|
            name: Seq<char>,
            before: Seq<char>,
            inside: Seq<char>,
            after: Seq<char>,
        | statement::release_parts(rest, argument, name, before, inside, after);
        let (token, close) = choose|token: Seq<char>, close: Seq<char>|
            statement::is_token(token, argument) && statement::is_close(close) && after
                == #[trigger] (token + close);
        let (behind, tail) = choose|behind: Seq<char>, tail: Seq<char>|
            statement::blank(behind) && statement::is_tail(tail) && close == #[trigger] (behind
                + seq![')'] + tail);
        lemma_gaps(lead);
        lemma_gaps(gap);
        lemma_gaps(before);
        lemma_gaps(inside);
        lemma_gaps(behind);
        lemma_keywords(word);
        lemma_keywords(name);
        lemma_tokens(token, argument);
        lemma_tails(tail);
        let t = ReleaseText { lead, word, gap, name, before, inside, token, behind, tail };
        assert(query =~= lead + word + gap + name + before + seq!['('] + inside + token + behind
            + seq![')'] + tail);
        assert(writes_release(query, argument, t));
    }
    if exists|t: ReleaseText| #[trigger] writes_release(query, argument, t) {
        let t = choose|t: ReleaseText| #[trigger] writes_release(query, argument, t);
        let close = t.behind + seq![')'] + t.tail;
        let after = t.token + close;
        let rest = t.name + t.before + seq!['('] + t.inside + after;
        lemma_gaps(t.lead);
        lemma_gaps(t.gap);
        lemma_gaps(t.before);
        lemma_gaps(t.inside);
        lemma_gaps(t.behind);
        lemma_keywords(t.word);
        lemma_keywords(t.name);
        lemma_tokens(t.token, argument);
        lemma_tails(t.tail);
        assert(statement::is_close(close));
        assert(statement::is_argument(after, argument));
        assert(statement::release_parts(rest, argument, t.name, t.before, t.inside, after));
        assert(query =~= t.lead + t.word + t.gap + rest);
        assert(statement::query_parts(query, release, t.lead, t.word, t.gap, rest));
    }
}

/// A literal writes every quote twice and everything else as it is.
pub proof fn lemma_literals_double_quotes(left: Seq<char>, c: char, right: Seq<char>)
    ensures
        statement::doubled(left + right) == statement::doubled(left) + statement::doubled(right),
        statement::doubled(seq![c]) == (if c == '\'' {
            seq!['\'', '\'']
        } else {
            seq![c]
        }),
    decreases left.len(),
{
    let one = seq![c];
    assert(one.skip(1) =~= Seq::<char>::empty());
    assert(statement::doubled(one.skip(1)) =~= Seq::<char>::empty());
    assert(statement::doubled(one) =~= (if c == '\'' {
        seq!['\'', '\'']
    } else {
        seq![c]
    }));
    if left.len() == 0 {
        assert(left + right =~= right);
        assert(statement::doubled(left) + statement::doubled(right) =~= statement::doubled(right));
    } else {
        lemma_literals_double_quotes(left.skip(1), c, right);
        assert((left + right).skip(1) =~= left.skip(1) + right);
        assert(statement::doubled(left + right) =~= statement::doubled(left) + statement::doubled(
            right,
        ));
    }
}

/// An accepted bind stores the portal of the command that was prepared, and the
/// portal of an empty query only where that was prepared. What was not prepared
/// cannot be bound.
pub proof fn lemma_bind_stores_what_was_prepared(
    request: BindRequest,
    prepared: PreparedStatement,
    r: Result<BindAction, ControlError>,
)
    requires
        call_ensures(protocol::on_bind, (&request, &prepared), r),
        r is Ok,
    ensures
        r->Ok_0 == BindAction::StorePortal <==> prepared is Known,
        r->Ok_0 == BindAction::StoreEmptyPortal <==> prepared is Empty,
        !(prepared is Missing),
{
}

/// The formats of a request are none, or one that is text or binary.
pub open spec fn plain_formats(portal: BoundPortal) -> bool {
    &&& portal.parameter_format_codes@.len() <= 1
    &&& portal.parameter_format_codes@.len() == 1 ==> (portal.parameter_format_codes@[0] == 0
        || portal.parameter_format_codes@[0] == 1)
    &&& portal.result_format_codes@.len() <= 1
    &&& portal.result_format_codes@.len() == 1 ==> (portal.result_format_codes@[0] == 0
        || portal.result_format_codes@[0] == 1)
}

/// A client may ask for text or binary throughout, or for nothing, and for
/// nothing else.
pub proof fn lemma_format_codes(codes: Seq<i16>)
    ensures
        protocol::valid_format_codes(codes) <==> codes.len() <= 1 && (codes.len() == 1 ==> codes[0]
            == 0 || codes[0] == 1),
{
}

/// What fits its statement can be bound: a ping and a release of a literal that
/// may name a lease, without parameters; a release of the parameter, with one
/// value; an empty query, without parameters.
pub proof fn lemma_fitting_binds_are_accepted(
    request: BindRequest,
    known: PgTestQueryTypeControlStatement,
)
    requires
        plain_formats(request.portal),
    ensures
        request.portal.parameters@.len() == 0 ==> protocol::bind_accepted(
            request,
            PreparedStatement::Empty,
            BindAction::StoreEmptyPortal,
        ),
        known is Ping && request.portal.parameters@.len() == 0 ==> protocol::bind_accepted(
            request,
            PreparedStatement::Known(known),
            BindAction::StorePortal,
        ),
        known is Release && known->Release_0 is Literal && lease::valid_lease(
            known->Release_0->Literal_0@,
        ) && request.portal.parameters@.len() == 0 ==> protocol::bind_accepted(
            request,
            PreparedStatement::Known(known),
            BindAction::StorePortal,
        ),
        known is Release && known->Release_0 is Parameter && known->Release_0->index == 0
            && request.portal.parameters@.len() == 1 && request.portal.parameters@[0] is Some
            && valid_utf8(request.portal.parameters@[0]->Some_0@) && lease::valid_lease(
            value_text(request.portal),
        ) ==> protocol::bind_accepted(
            request,
            PreparedStatement::Known(known),
            BindAction::StorePortal,
        ),
{
    lemma_format_codes(request.portal.parameter_format_codes@);
    lemma_format_codes(request.portal.result_format_codes@);
    if let PgTestQueryTypeControlStatement::Release(argument) = known {
        match argument {
            LeaseArgument::Literal(content) => {
                assert(protocol::lease_text(known@->Release_0, request.portal)
                    == protocol::LeaseText::Found(content@));
                if lease::valid_lease(content@) {
                    assert(protocol::names_lease(known@->Release_0, request.portal, content@));
                }
            },
            LeaseArgument::Parameter { index } => {
                if index == 0 && request.portal.parameters@.len() == 1 && lease::valid_lease(
                    value_text(request.portal),
                ) && request.portal.parameters@[0] is Some && valid_utf8(
                    request.portal.parameters@[0]->Some_0@,
                ) {
                    assert(protocol::names_lease(
                        known@->Release_0,
                        request.portal,
                        value_text(request.portal),
                    ));
                }
            },
        }
    }
}

/// The text of the first value: in binary as it is, in text format with every
/// pair of quotes turned into one.
pub open spec fn value_text(portal: BoundPortal) -> Seq<char> {
    let written = decode_utf8(portal.parameters@[0]->Some_0@);
    if portal.parameter_format_codes@.len() == 1 && portal.parameter_format_codes@[0] == 1 {
        written
    } else {
        protocol::collapsed(written)
    }
}

/// A lease argument names what it says: a literal its content, a parameter the
/// text of its value. It names nothing else.
pub proof fn lemma_named_leases(argument: LeaseArgument, portal: BoundPortal, id: Seq<char>)
    ensures
        argument is Literal ==> (protocol::names_lease(argument@, portal, id) <==> id
            == argument->Literal_0@ && lease::valid_lease(id)),
        argument is Parameter && argument->index == 0 && plain_formats(portal)
            ==> (protocol::names_lease(argument@, portal, id) <==> {
            &&& portal.parameters@.len() >= 1
            &&& portal.parameters@[0] is Some
            &&& valid_utf8(portal.parameters@[0]->Some_0@)
            &&& id == value_text(portal)
            &&& lease::valid_lease(id)
        }),
{
}

/// Pairs of quotes are turned into one quote each, from left to right; all else
/// stays.
pub proof fn lemma_pairs_of_quotes_collapse(c: char, rest: Seq<char>)
    ensures
        protocol::collapsed(Seq::<char>::empty()) == Seq::<char>::empty(),
        protocol::collapsed(seq!['\'', '\''] + rest) == seq!['\''] + protocol::collapsed(rest),
        c != '\'' ==> protocol::collapsed(seq![c] + rest) == seq![c] + protocol::collapsed(rest),
{
    assert((seq!['\'', '\''] + rest).skip(2) =~= rest);
    assert((seq![c] + rest).skip(1) =~= rest);
    if rest.len() == 0 {
        assert(seq![c] + rest =~= seq![c] + protocol::collapsed(rest));
    }
}

/// A bind is refused with the reason that comes first: wrong format codes, a
/// statement that was not prepared, a wrong number of values, or a value that
/// names no lease.
pub proof fn lemma_refused_binds_say_why(
    request: BindRequest,
    prepared: PreparedStatement,
    r: Result<BindAction, ControlError>,
    error: ControlError,
)
    requires
        call_ensures(protocol::on_bind, (&request, &prepared), r),
        r == Err::<BindAction, ControlError>(error),
    ensures
        !plain_formats(request.portal) ==> error is User && error->code@ == "08P01"@,
        request.portal.parameter_format_codes@.len() > 1 ==> error->message@
            == "Expected 1 or 0 "@ + "parameter"@ + " format codes, received "@ + text::decimal(
            request.portal.parameter_format_codes@.len(),
        ),
        request.portal.parameter_format_codes@.len() == 0
            && request.portal.result_format_codes@.len() > 1 ==> error->message@
            == "Expected 1 or 0 "@ + "result column"@ + " format codes, received "@ + text::decimal(
            request.portal.result_format_codes@.len(),
        ),
        plain_formats(request.portal) && prepared is Missing ==> error is StatementNotFound
            && error->StatementNotFound_0@ == (match request.statement_name {
            Some(name) => name@,
            None => "POSTGRESQL_DEFAULT_NAME"@,
        }),
        plain_formats(request.portal) && prepared is Empty ==> request.portal.parameters@.len() > 0
            && error is User && error->code@ == "08P01"@ && error->message@
            == "bind message supplies "@ + text::decimal(request.portal.parameters@.len())
            + " parameters, but prepared statement "@ + protocol::debug_form(
            match request.statement_name {
                Some(name) => name@,
                None => "POSTGRESQL_DEFAULT_NAME"@,
            },
        ) + " requires 0"@,
        plain_formats(request.portal) && prepared is Known && request.portal.parameters@.len()
            != protocol::parameter_count(prepared->Known_0@) ==> error is User && error->code@
            == "08P01"@ && error->message@ == "Expected "@ + text::decimal(
            protocol::parameter_count(prepared->Known_0@),
        ) + " bind parameters, received "@ + text::decimal(request.portal.parameters@.len()),
        plain_formats(request.portal) && prepared is Known && request.portal.parameters@.len()
            == protocol::parameter_count(prepared->Known_0@) ==> {
            &&& prepared->Known_0 is Release
            &&& forall|id: Seq<char>| !protocol::names_lease(
                prepared->Known_0->Release_0@,
                request.portal,
                id,
            )
        },
{
    lemma_format_codes(request.portal.parameter_format_codes@);
    lemma_format_codes(request.portal.result_format_codes@);
}

/// Why an argument names no lease: its text may not name one, its value is
/// `NULL`, is missing, or is no UTF-8.
pub proof fn lemma_lease_refusals(
    argument: LeaseArgument,
    portal: BoundPortal,
    error: ControlError,
)
    requires
        protocol::names_no_lease(argument@, portal, error),
    ensures
        argument is Literal ==> !lease::valid_lease(argument->Literal_0@) && error
            == ControlError::Release(ReleaseError::InvalidLeaseId),
        argument is Parameter && argument->index >= portal.parameters@.len() ==> error
            == ControlError::Parameter(ParameterFault::IndexOutOfBound(argument->index)),
        argument is Parameter && argument->index < portal.parameters@.len()
            && portal.parameters@[argument->index as int] is None ==> error is User && error->code@
            == "22004"@ && error->message@ == "Lease ID cannot be NULL"@,
        argument is Parameter && argument->index < portal.parameters@.len()
            && portal.parameters@[argument->index as int] is Some && !valid_utf8(
            portal.parameters@[argument->index as int]->Some_0@,
        ) ==> error is Parameter && error->Parameter_0 is FailedToParse
            && error->Parameter_0->FailedToParse_message@ == protocol::utf8_error_text(
            portal.parameters@[argument->index as int]->Some_0@,
        ),
        argument is Parameter && argument->index < portal.parameters@.len()
            && portal.parameters@[argument->index as int] is Some && valid_utf8(
            portal.parameters@[argument->index as int]->Some_0@,
        ) ==> error == ControlError::Release(ReleaseError::InvalidLeaseId),
{
}

/// Only the release of a parameter takes a value, and it takes one.
pub proof fn lemma_parameter_counts(known: PgTestQueryTypeControlStatement)
    ensures
        protocol::parameter_count(known@) == (if known is Release && known->Release_0
            is Parameter {
            1nat
        } else {
            0
        }),
{
}

/// A client may leave the type of the parameter open or declare it as text. It
/// may declare no type for a statement without parameters, and no second one.
pub proof fn lemma_declared_types(
    known: PgTestQueryTypeControlStatement,
    types: Seq<Option<u32>>,
    error: ControlError,
)
    ensures
        types.len() == 0 ==> protocol::types_accepted(known@, types),
        protocol::types_accepted(known@, types) && types.len() > 0 ==> known is Release
            && known->Release_0 is Parameter,
        known is Release && known->Release_0 is Parameter && types.len() == 1
            ==> (protocol::types_accepted(known@, types) <==> types[0] is None
            || types[0]->Some_0 == 25),
        types.len() > 1 ==> !protocol::types_accepted(known@, types),
        protocol::types_accepted(known@, types) ==> !protocol::types_rejected(
            known@,
            types,
            error,
        ),
        protocol::types_rejected(known@, types, error) ==> error is User && (if known is Release
            && known->Release_0 is Parameter && types.len() > 1 {
            error->code@ == "0A000"@
        } else {
            error->code@ == "42804"@
        }),
{
}

/// Zero stands for a type that is left open, 25 for text; no other number is
/// taken.
pub proof fn lemma_type_numbers(number: u32)
    ensures
        protocol::is_text_oid(number) <==> number == 0 || number == 25,
        response::oid(ControlType::Text) == 25,
        response::oid(ControlType::Int4) == 23,
        response::oid(ControlType::Bool) == 16,
{
}

/// A portal that was bound can be executed and no error is left to be found; a
/// portal whose number of values is wrong cannot, and the client is told both
/// numbers.
pub proof fn lemma_executions_count_values(
    known: PgTestQueryTypeControlStatement,
    portal: BoundPortal,
    error: ControlError,
)
    ensures
        portal.parameters@.len() != protocol::parameter_count(known@)
            ==> (protocol::execution_fails(known@, portal, error) <==> error is User
            && error->code@ == "08P01"@ && error->message@ == "Expected "@ + text::decimal(
            protocol::parameter_count(known@),
        ) + " bound parameters, received "@ + text::decimal(portal.parameters@.len())),
        known is Ping && portal.parameters@.len() == 0 ==> !protocol::execution_fails(
            known@,
            portal,
            error,
        ),
        known is Release && known->Release_0 is Literal && portal.parameters@.len() == 0
            && lease::valid_lease(known->Release_0->Literal_0@) ==> !protocol::execution_fails(
            known@,
            portal,
            error,
        ),
{
}

/// The first column is binary where that was asked for, for it alone or for all
/// columns, and text otherwise.
pub proof fn lemma_column_formats(codes: Seq<i16>)
    ensures
        codes.len() == 0 ==> protocol::format_of(protocol::format_code(codes, 0))
            == FieldFormat::Text,
        codes.len() > 0 ==> (protocol::format_of(protocol::format_code(codes, 0))
            == FieldFormat::Binary <==> codes[0] == 1),
{
}

/// A ping is answered by one number, a release by one truth value, each under
/// its name and in the format that was asked for.
pub proof fn lemma_result_columns(
    known: PgTestQueryTypeControlStatement,
    schema: Seq<Field>,
    format: FieldFormat,
)
    requires
        response::is_schema(schema, known, format),
    ensures
        schema.len() == 1,
        schema[0].format == format,
        known is Ping ==> schema[0].name@ == "?column?"@ && schema[0].data_type
            == ControlType::Int4,
        known is Release ==> schema[0].name@ == "pgtest_release"@ && schema[0].data_type
            == ControlType::Bool,
        known is Ping ==> response::is_ping_schema(schema, format),
        known is Release ==> response::is_release_schema(schema, format),
{
}

/// The rows that answer a ping and a release: the length of the value and the
/// value, which is one, or true.
pub proof fn lemma_answer_rows()
    ensures
        response::sized(response::int4_bytes(1, FieldFormat::Binary)) == seq![
            0u8,
            0,
            0,
            4,
            0,
            0,
            0,
            1,
        ],
        response::sized(response::int4_bytes(1, FieldFormat::Text)) == seq![0u8, 0, 0, 1, 0x31],
        response::sized(response::bool_bytes(true, FieldFormat::Binary)) == seq![0u8, 0, 0, 1, 1],
        response::sized(response::bool_bytes(true, FieldFormat::Text)) == seq![0u8, 0, 0, 1, 0x74],
{
    assert(text::decimal(1) =~= seq!['1']);
    reveal_with_fuel(encode_utf8, 2);
    assert((0x31u32 & 0x7f) as u8 == 0x31) by (bit_vector);
    assert(seq!['1'].drop_first() =~= Seq::<char>::empty());
    assert(encode_utf8(seq!['1']) =~= seq![0x31u8]);
}

/// The SQLSTATE of a failed release.
pub proof fn lemma_release_codes(error: ReleaseError, code: &'static str)
    requires
        call_ensures(ReleaseError::code, (error,), code),
    ensures
        code@ == (match error {
            ReleaseError::InvalidLeaseId => "22023"@,
            ReleaseError::LeaseRecordLimitReached => "53400"@,
            ReleaseError::EngineUnavailable => "08006"@,
            ReleaseError::ReplyTimedOut => "57014"@,
            ReleaseError::UnexpectedReply => "XX000"@,
        }),
        response::release_code(error) == code@,
{
}

/// Every simple query is answered by what it writes: a ping by a ping, the
/// release of a literal by the release of exactly that lease or by the refusal
/// of its name, the release of a parameter by the hint at the extended protocol,
/// and everything else by the refusal of the command. Results are text.
pub proof fn lemma_simple_queries_do_what_they_say(
    query: &str,
    id: Seq<char>,
    outcome: Result<ControlAction, ControlError>,
)
    requires
        call_ensures(protocol::simple_query, (query,), outcome),
    ensures
        statement::is_query(query@, ControlStatementView::Ping) ==> outcome is Ok && outcome->Ok_0
            is Ping && outcome->Ok_0->Ping_format == FieldFormat::Text,
        statement::is_query(
            query@,
            ControlStatementView::Release(LeaseArgumentView::Literal(id)),
        ) && lease::valid_lease(id) ==> outcome is Ok && outcome->Ok_0 is Release
            && outcome->Ok_0->lease@ == id && outcome->Ok_0->Release_format == FieldFormat::Text,
        statement::is_query(
            query@,
            ControlStatementView::Release(LeaseArgumentView::Literal(id)),
        ) && !lease::valid_lease(id) ==> outcome == Err::<ControlAction, ControlError>(
            ControlError::Release(ReleaseError::InvalidLeaseId),
        ),
        statement::is_query(
            query@,
            ControlStatementView::Release(LeaseArgumentView::Parameter { index: 0 }),
        ) ==> outcome is Err && outcome->Err_0 is User && outcome->Err_0->code@ == "42P02"@
            && outcome->Err_0->message@ == "parameters require the extended query protocol"@,
        (forall|any: ControlStatementView| !statement::is_query(query@, any)) ==> outcome is Err
            && outcome->Err_0 is User && outcome->Err_0->code@ == "0A000"@
            && outcome->Err_0->message@ == "command not support by the control panel"@,
        outcome is Ok ==> exists|any: ControlStatementView| statement::is_query(query@, any),
{
    let ping = ControlStatementView::Ping;
    let literal = ControlStatementView::Release(LeaseArgumentView::Literal(id));
    let parameter = ControlStatementView::Release(LeaseArgumentView::Parameter { index: 0 });
    assert forall|one: ControlStatementView, two: ControlStatementView|
        #![trigger statement::is_query(query@, one), statement::is_query(query@, two)]
        statement::is_query(query@, one) && statement::is_query(query@, two) implies one == two by {
        statement::lemma_query_unambiguous(query@, one, two);
    }
    if let Ok(ControlAction::Release { lease, .. }) = outcome {
        assert(statement::is_query(query@, protocol::literal_release(lease@)));
    }
    if let Ok(ControlAction::Ping { .. }) = outcome {
        assert(statement::is_query(query@, ping));
    }
    assert(statement::is_query(query@, literal) || !statement::is_query(query@, literal));
    assert(statement::is_query(query@, parameter) || !statement::is_query(query@, parameter));
}

/// What was bound is executed: the ping as a ping, the release as that of
/// exactly the lease that its literal or its value names, in the format that was
/// asked for.
pub proof fn lemma_bound_portals_do_what_they_say(
    request: BindRequest,
    known: PgTestQueryTypeControlStatement,
    prepared: PreparedStatement,
    action: BindAction,
    outcome: Result<ControlAction, ControlError>,
)
    requires
        prepared == PreparedStatement::Known(known),
        call_ensures(protocol::on_bind, (&request, &prepared), Ok(action)),
        call_ensures(protocol::extended_query, (&known, &request.portal), outcome),
    ensures
        ({
            let codes = request.portal.result_format_codes@;
            let format = if codes.len() == 1 && codes[0] == 1 {
                FieldFormat::Binary
            } else {
                FieldFormat::Text
            };
            &&& call_requires(protocol::extended_query, (&known, &request.portal))
            &&& outcome is Ok
            &&& known is Ping ==> outcome->Ok_0 is Ping && outcome->Ok_0->Ping_format == format
            &&& known is Release ==> outcome->Ok_0 is Release && outcome->Ok_0->Release_format
                == format
            &&& known is Release && known->Release_0 is Literal ==> outcome->Ok_0->lease@
                == known->Release_0->Literal_0@
            &&& known is Release && known->Release_0 is Parameter && known->Release_0->index == 0
                ==> outcome->Ok_0->lease@ == value_text(request.portal)
        }),
{
    let error = ControlError::Release(ReleaseError::InvalidLeaseId);
    protocol::lemma_bound_statement_executes(request, known, action, error);
    if outcome is Err {
        protocol::lemma_bound_statement_executes(request, known, action, outcome->Err_0);
    }
}

/// An execution that fails has a reason, and one that does not fail releases
/// only what was prepared for release.
pub proof fn lemma_executions_are_what_was_prepared(
    known: PgTestQueryTypeControlStatement,
    portal: BoundPortal,
    outcome: Result<ControlAction, ControlError>,
)
    requires
        call_ensures(protocol::extended_query, (&known, &portal), outcome),
    ensures
        outcome is Ok && outcome->Ok_0 is Ping ==> known is Ping,
        outcome is Ok && outcome->Ok_0 is Release ==> known is Release && lease::valid_lease(
            outcome->Ok_0->lease@,
        ) && protocol::names_lease(known->Release_0@, portal, outcome->Ok_0->lease@),
        outcome is Ok ==> portal.parameters@.len() == (if known is Release && known->Release_0
            is Parameter {
            1nat
        } else {
            0
        }),
        known is Ping && portal.parameters@.len() == 0 ==> outcome is Ok,
        outcome is Ok ==> (match outcome->Ok_0 {
            ControlAction::Ping { format } => format,
            ControlAction::Release { format, .. } => format,
        } == FieldFormat::Binary <==> portal.result_format_codes@.len() > 0
            && portal.result_format_codes@[0] == 1),
{
}

/// The types that a client declares are taken if each is left open or text, and
/// refused as the wrong type otherwise.
pub proof fn lemma_declarations(type_oids: Vec<u32>, outcome: Result<(), ControlError>)
    requires
        call_ensures(protocol::on_parse, (&type_oids,), outcome),
    ensures
        outcome is Ok <==> forall|i: int|
            0 <= i < type_oids@.len() ==> type_oids@[i] == 0 || type_oids@[i] == 25,
        outcome is Err ==> outcome->Err_0 is User && outcome->Err_0->code@ == "42804"@
            && outcome->Err_0->message@ == "pgtest_release requires a TEXT parameter"@,
{
    if outcome is Ok {
        assert forall|i: int| 0 <= i < type_oids@.len() implies type_oids@[i] == 0 || type_oids@[i]
            == 25 by {
            assert(protocol::is_text_oid(type_oids@[i]));
        }
    } else {
        let i = choose|i: int|
            0 <= i < type_oids@.len() && !protocol::is_text_oid(#[trigger] type_oids@[i]);
        assert(type_oids@[i] != 0 && type_oids@[i] != 25);
    }
}

/// A query is prepared as the statement that it writes, if the declared types
/// fit it; otherwise it is refused for its types, and what writes no statement
/// as no command.
pub proof fn lemma_preparations(
    sql: &str,
    written: PgTestQueryTypeControlStatement,
    types: Vec<Option<u32>>,
    outcome: Result<PgTestQueryTypeControlStatement, ControlError>,
)
    requires
        call_ensures(
            ControlQueryParser::parse_sql,
            (&ControlQueryParser, sql, &types),
            outcome,
        ),
    ensures
        statement::is_query(sql@, written@) && types@.len() == 0 ==> outcome is Ok,
        statement::is_query(sql@, written@) && outcome is Ok ==> outcome->Ok_0@ == written@,
        statement::is_query(sql@, written@) && written is Release && written->Release_0
            is Parameter && types@.len() == 1 ==> (outcome is Ok <==> types@[0] is None
            || types@[0]->Some_0 == 25),
        statement::is_query(sql@, written@) && !(written is Release && written->Release_0
            is Parameter) && types@.len() > 0 ==> outcome is Err && outcome->Err_0 is User
            && outcome->Err_0->code@ == "42804"@ && outcome->Err_0->message@
            == "Parameters not expect for ping command"@,
        statement::is_query(sql@, written@) && written is Release && written->Release_0
            is Parameter && types@.len() == 1 && outcome is Err ==> outcome->Err_0 is User
            && outcome->Err_0->code@ == "42804"@ && outcome->Err_0->message@
            == "pgtest_release expected "@ + "text"@ + " argument"@,
        statement::is_query(sql@, written@) && written is Release && written->Release_0
            is Parameter && types@.len() > 1 ==> outcome is Err && outcome->Err_0 is User
            && outcome->Err_0->code@ == "0A000"@ && outcome->Err_0->message@ == "Expected "@
            + text::decimal(1) + " bound parameters, received "@ + text::decimal(types@.len()),
        (forall|any: ControlStatementView| !statement::is_query(sql@, any)) ==> outcome is Err
            && outcome->Err_0 is User && outcome->Err_0->code@ == "0A000"@
            && outcome->Err_0->message@ == "command not support by the control panel"@,
{
    assert forall|one: ControlStatementView, two: ControlStatementView|
        #![trigger statement::is_query(sql@, one), statement::is_query(sql@, two)]
        statement::is_query(sql@, one) && statement::is_query(sql@, two) implies one == two by {
        statement::lemma_query_unambiguous(sql@, one, two);
    }
    if outcome is Err {
        lemma_declared_types(written, types@, outcome->Err_0);
    }
    if outcome is Ok {
        lemma_declared_types(
            written,
            types@,
            ControlError::Release(ReleaseError::InvalidLeaseId),
        );
    }
}

/// A result has the column of its statement, in the format of its first code,
/// and in text where the client did not ask.
pub proof fn lemma_described_formats(
    known: PgTestQueryTypeControlStatement,
    codes: Vec<i16>,
    asked: Result<Vec<Field>, ControlError>,
    unasked: Result<Vec<Field>, ControlError>,
)
    requires
        call_ensures(
            ControlQueryParser::get_result_schema,
            (&ControlQueryParser, &known, Some(&codes)),
            asked,
        ),
        call_ensures(
            ControlQueryParser::get_result_schema,
            (&ControlQueryParser, &known, None),
            unasked,
        ),
    ensures
        asked is Ok && asked->Ok_0@.len() == 1,
        unasked is Ok && unasked->Ok_0@.len() == 1,
        asked->Ok_0@[0].format == FieldFormat::Binary <==> codes@.len() > 0 && codes@[0] == 1,
        unasked->Ok_0@[0].format == FieldFormat::Text,
        known is Ping ==> asked->Ok_0@[0].name@ == "?column?"@ && asked->Ok_0@[0].data_type
            == ControlType::Int4 && unasked->Ok_0@[0].name@ == "?column?"@
            && unasked->Ok_0@[0].data_type == ControlType::Int4,
        known is Release ==> asked->Ok_0@[0].name@ == "pgtest_release"@
            && asked->Ok_0@[0].data_type == ControlType::Bool && unasked->Ok_0@[0].name@
            == "pgtest_release"@ && unasked->Ok_0@[0].data_type == ControlType::Bool,
{
}

/// A query is read as what it writes, in any of the ways to write it, and as
/// nothing else.
pub proof fn lemma_queries_are_read(
    query: &str,
    r: Result<PgTestQueryTypeControlStatement, InvalidControlQuery>,
    argument: LeaseArgumentView,
)
    requires
        call_ensures(PgTestQueryTypeControlStatement::parse, (query,), r),
    ensures
        r is Ok && r->Ok_0 is Ping <==> exists|
            lead: Seq<char>,
            word: Seq<char>,
            gap: Seq<char>,
            tail: Seq<char>,
        | #[trigger] writes_ping(query@, lead, word, gap, tail),
        r is Ok && r->Ok_0 is Release && r->Ok_0->Release_0@ == argument <==> exists|
            t: ReleaseText,
        | #[trigger] writes_release(query@, argument, t),
{
    lemma_pings_are_read(query@);
    lemma_releases_are_read(query@, argument);
    let release = ControlStatementView::Release(argument);
    if r is Err {
        assert(!statement::is_query(query@, ControlStatementView::Ping));
        assert(!statement::is_query(query@, release));
    } else {
        assert(statement::is_query(query@, r->Ok_0@));
        if r->Ok_0 is Ping {
            assert(statement::is_query(query@, ControlStatementView::Ping));
        } else {
            assert(r->Ok_0@ == ControlStatementView::Release(r->Ok_0->Release_0@));
        }
        if statement::is_query(query@, ControlStatementView::Ping) {
            statement::lemma_query_unambiguous(query@, r->Ok_0@, ControlStatementView::Ping);
        }
        if statement::is_query(query@, release) {
            statement::lemma_query_unambiguous(query@, r->Ok_0@, release);
        }
    }
}

/// Every text that is quoted and released is released as it is.
pub proof fn lemma_quoted_text_is_released(
    query: &str,
    id: Seq<char>,
    r: Result<ControlAction, ControlError>,
)
    requires
        query@ == "SELECT pgtest_release("@ + statement::quoted(id) + ")"@,
        call_ensures(protocol::simple_query, (query,), r),
    ensures
        r is Ok <==> lease::valid_lease(id),
        r is Ok ==> r->Ok_0 is Release && r->Ok_0->lease@ == id,
{
    statement::lemma_quoted_release_is_read_back(id);
    lemma_simple_queries_do_what_they_say(query, id, r);
}

/// What fits its statement is bound.
pub proof fn lemma_fitting_binds_succeed(
    request: BindRequest,
    prepared: PreparedStatement,
    r: Result<BindAction, ControlError>,
)
    requires
        plain_formats(request.portal),
        call_ensures(protocol::on_bind, (&request, &prepared), r),
    ensures
        prepared is Empty && request.portal.parameters@.len() == 0 ==> r == Ok::<
            BindAction,
            ControlError,
        >(BindAction::StoreEmptyPortal),
        prepared is Known && prepared->Known_0 is Ping && request.portal.parameters@.len() == 0
            ==> r == Ok::<BindAction, ControlError>(BindAction::StorePortal),
        prepared is Known && prepared->Known_0 is Release && prepared->Known_0->Release_0 is Literal
            && lease::valid_lease(prepared->Known_0->Release_0->Literal_0@)
            && request.portal.parameters@.len() == 0 ==> r == Ok::<BindAction, ControlError>(
            BindAction::StorePortal,
        ),
        prepared is Known && prepared->Known_0 is Release && prepared->Known_0->Release_0
            is Parameter && prepared->Known_0->Release_0->index == 0
            && request.portal.parameters@.len() == 1 && request.portal.parameters@[0] is Some
            && valid_utf8(request.portal.parameters@[0]->Some_0@) && lease::valid_lease(
            value_text(request.portal),
        ) ==> r == Ok::<BindAction, ControlError>(BindAction::StorePortal),
{
    if prepared is Known {
        lemma_fitting_binds_are_accepted(request, prepared->Known_0);
    } else {
        lemma_fitting_binds_are_accepted(request, PgTestQueryTypeControlStatement::Ping);
    }
    if r is Err {
        if protocol::bind_accepted(request, prepared, BindAction::StorePortal) {
            protocol::lemma_bind_is_decided(
                request,
                prepared,
                BindAction::StorePortal,
                r->Err_0,
            );
        }
        if protocol::bind_accepted(request, prepared, BindAction::StoreEmptyPortal) {
            protocol::lemma_bind_is_decided(
                request,
                prepared,
                BindAction::StoreEmptyPortal,
                r->Err_0,
            );
        }
    }
}

/// An argument is resolved to the lease that it names, and to no other; without
/// one, it is refused.
pub proof fn lemma_resolved_leases(
    argument: LeaseArgument,
    portal: BoundPortal,
    r: Result<LeaseId, ControlError>,
)
    requires
        plain_formats(portal),
        call_ensures(protocol::resolve_lease_id, (&argument, &portal), r),
    ensures
        call_requires(protocol::resolve_lease_id, (&argument, &portal)),
        argument is Literal ==> {
            &&& r is Ok <==> lease::valid_lease(argument->Literal_0@)
            &&& r is Ok ==> r->Ok_0@ == argument->Literal_0@
            &&& r is Err ==> r->Err_0 == ControlError::Release(ReleaseError::InvalidLeaseId)
        },
        argument is Parameter && argument->index == 0 ==> {
            &&& r is Ok <==> portal.parameters@.len() >= 1 && portal.parameters@[0] is Some
                && valid_utf8(portal.parameters@[0]->Some_0@) && lease::valid_lease(
                value_text(portal),
            )
            &&& r is Ok ==> r->Ok_0@ == value_text(portal)
        },
        argument is Parameter && argument->index == 0 && portal.parameters@.len() >= 1
            && portal.parameters@[0] is None ==> r is Err && r->Err_0 is User && r->Err_0->code@
            == "22004"@,
{
    if r is Ok {
        lemma_named_leases(argument, portal, r->Ok_0@);
    } else {
        lemma_lease_refusals(argument, portal, r->Err_0);
    }
}

/// A text is taken as a lease ID as it is, or refused as the lease manager would.
pub proof fn lemma_parsed_leases(value: String, r: Result<LeaseId, ControlError>)
    requires
        call_ensures(protocol::parse_lease_id, (value,), r),
    ensures
        r is Ok <==> lease::valid_lease(value@),
        r is Ok ==> r->Ok_0@ == value@,
        r is Err ==> r->Err_0 == ControlError::Release(ReleaseError::InvalidLeaseId),
{
}

/// One format code, text or binary, is taken, and none; anything else is told
/// what was expected.
pub proof fn lemma_checked_format_codes(
    codes: Vec<i16>,
    kind: &str,
    r: Result<(), ControlError>,
)
    requires
        call_ensures(protocol::validate_format_codes, (&codes, kind), r),
    ensures
        r is Ok <==> codes@.len() == 0 || (codes@.len() == 1 && (codes@[0] == 0 || codes@[0] == 1)),
        r is Err ==> r->Err_0 is User && r->Err_0->code@ == "08P01"@,
        codes@.len() > 1 ==> r is Err && r->Err_0->message@ == "Expected 1 or 0 "@ + kind@
            + " format codes, received "@ + text::decimal(codes@.len()),
        r is Err && codes@.len() == 1 ==> r->Err_0->message@ == "Expected "@ + kind@
            + " format code to be text or binary"@,
{
}

/// A statement is said to take as many parameters as it can be bound with, all
/// of them text.
pub proof fn lemma_parameter_types(
    known: PgTestQueryTypeControlStatement,
    types: Vec<ControlType>,
)
    requires
        call_ensures(
            ControlQueryParser::get_parameter_types,
            (&ControlQueryParser, &known),
            types,
        ),
    ensures
        known is Release && known->Release_0 is Parameter ==> types@ == seq![ControlType::Text],
        !(known is Release && known->Release_0 is Parameter) ==> types@.len() == 0,
{
    if known is Release && known->Release_0 is Parameter {
        assert(types@ =~= seq![ControlType::Text]);
    }
}

/// A ping is answered by the number one and a release by true, each in one column
/// under its name and in the format that was asked for.
pub proof fn lemma_answers(
    format: FieldFormat,
    pong: Result<Reply, ControlError>,
    done: Result<Reply, ControlError>,
)
    requires
        call_ensures(response::ping, (format,), pong),
        call_ensures(response::released, (format,), done),
    ensures
        pong is Ok && pong->Ok_0.schema@.len() == 1,
        pong->Ok_0.schema@[0].name@ == "?column?"@,
        pong->Ok_0.schema@[0].data_type == ControlType::Int4,
        pong->Ok_0.schema@[0].format == format,
        buffer::held(pong->Ok_0.row) == (if format == FieldFormat::Binary {
            seq![0u8, 0, 0, 4, 0, 0, 0, 1]
        } else {
            seq![0u8, 0, 0, 1, 0x31]
        }),
        done is Ok && done->Ok_0.schema@.len() == 1,
        done->Ok_0.schema@[0].name@ == "pgtest_release"@,
        done->Ok_0.schema@[0].data_type == ControlType::Bool,
        done->Ok_0.schema@[0].format == format,
        buffer::held(done->Ok_0.row) == (if format == FieldFormat::Binary {
            seq![0u8, 0, 0, 1, 1]
        } else {
            seq![0u8, 0, 0, 1, 0x74]
        }),
{
    lemma_answer_rows();
}

/// The client is told the code that the control panel chose, and that of a failed
/// release; other errors bring their own.
pub proof fn lemma_error_codes(error: ControlError, code: Option<&'static str>)
    requires
        call_ensures(ControlError::code, (&error,), code),
    ensures
        error is User ==> code is Some && code->Some_0@ == error->code@,
        error is Release ==> code is Some && code->Some_0@ == (match error->Release_0 {
            ReleaseError::InvalidLeaseId => "22023"@,
            ReleaseError::LeaseRecordLimitReached => "53400"@,
            ReleaseError::EngineUnavailable => "08006"@,
            ReleaseError::ReplyTimedOut => "57014"@,
            ReleaseError::UnexpectedReply => "XX000"@,
        }),
        !(error is User) && !(error is Release) ==> code is None,
{
}

/// A statement and a portal go by the names that the client gave them; those
/// without one share the name of the unnamed.
pub proof fn lemma_names(request: BindRequest, prepared: &str, stored: &str)
    requires
        call_ensures(BindRequest::prepared_name, (&request,), prepared),
        call_ensures(BindRequest::stored_name, (&request,), stored),
    ensures
        request.statement_name is Some ==> prepared@ == request.statement_name->Some_0@,
        request.portal_name is Some ==> stored@ == request.portal_name->Some_0@,
        request.statement_name is None ==> prepared@ == "POSTGRESQL_DEFAULT_NAME"@,
        request.portal_name is None ==> stored@ == "POSTGRESQL_DEFAULT_NAME"@,
{
}

} // verus!
