//! Per-message dispatch: decides, for one inbound chat event, the single
//! observable outcome — nothing, a text reply, a backend call — and what to
//! reply or react once a backend call has returned. The loop around the
//! library performs the I/O and feeds results back in as plain values.

use vstd::prelude::*;
use vstd::string::*;

use crate::ledger::Transaction;
use crate::ledger::TransactionV;
use crate::ledger::Transactions;
use crate::ledger::withdrawal_spec;
use crate::parse::AddArgs;
use crate::parse::AddArgsV;
use crate::parse::Cmd;
use crate::parse::CmdV;
use crate::parse::error_message;
use crate::parse::parse_cmd_spec;

verus! {

/// What the surrounding loop must do with one inbound event: nothing, post a
/// text reply, call the backend's category listing, or send the synthesized
/// withdrawal to the backend's create endpoint.
pub enum Action {
    Ignore,
    Reply(String),
    ListCategories,
    CreateWithdrawal(Transactions),
}

/// The fixed destination label of every synthesized withdrawal.
pub open spec fn general_expense() -> Seq<char> {
    "General expense"@
}

/// The usage text `!help` replies with.
pub open spec fn help_text() -> Seq<char> {
    "Available commands:\n - !add <Category>: <Amount> [Note] [#Tag...]\n - !categories\n - !help\n - !ping"@
}

/// Only messages that open with the command prefix are looked at.
pub open spec fn starts_with_bang(body: Seq<char>) -> bool {
    body.len() > 0 && body[0] == '!'
}

/// Relies on chrono's `DateTime::from_timestamp_millis`, `with_timezone` and
/// `to_rfc3339`: turns a message's server timestamp (unix milliseconds) into
/// local-offset RFC 3339 text, `None` when the instant falls outside the
/// calendar's range. The text depends on the machine's time zone, so nothing
/// is claimed about it.
#[verifier::external_body]
fn local_rfc3339(unix_millis: i64) -> (r: Option<String>) {
    match chrono::DateTime::from_timestamp_millis(unix_millis) {
        Some(utc) => Some(utc.with_timezone(&chrono::Local).to_rfc3339()),
        None => None,
    }
}

/// Holds when `t` is the withdrawal synthesized from request `req` sent by
/// `sender`, whatever date text the calendar gave for the event's timestamp.
pub open spec fn synthesized_from(
    t: TransactionV,
    req: AddArgsV,
    sender: Seq<char>,
    source_id: i64,
) -> bool {
    t == withdrawal_spec(
        req.category,
        req.amount,
        t.date,
        source_id,
        general_expense(),
        sender,
        req.note,
        req.tags,
    )
}

/// Decides what one inbound event leads to, given the local-time text of its
/// timestamp (or `None` when the calendar could not represent it). Events
/// that are not plain text, or whose text does not open with `!`, are
/// ignored; a parse failure is replied with its error text; `!ping`, `!help`
/// and `!categories` reply or call the backend as their names say; `!add`
/// synthesizes the withdrawal to create, dated with the given text, and is
/// ignored when there is none.
pub fn route_with_date(
    is_text: bool,
    body: &str,
    sender: &str,
    local_date: Option<String>,
    source_id: i64,
) -> (a: Action)
    ensures
        !(is_text && starts_with_bang(body@)) ==> a is Ignore,
        is_text && starts_with_bang(body@) ==> match parse_cmd_spec(body@) {
            Err(e) => a matches Action::Reply(m) && m@ == error_message(e),
            Ok(CmdV::Ping) => a matches Action::Reply(m) && m@ == "pong"@,
            Ok(CmdV::Help) => a matches Action::Reply(m) && m@ == help_text(),
            Ok(CmdV::Categories) => a is ListCategories,
            Ok(CmdV::Add(req)) => match local_date {
                Some(date) => a matches Action::CreateWithdrawal(payload)
                    && payload.transactions@.len() == 1 && payload.transactions@[0]@
                    == withdrawal_spec(
                    req.category,
                    req.amount,
                    date@,
                    source_id,
                    general_expense(),
                    sender@,
                    req.note,
                    req.tags,
                ),
                None => a is Ignore,
            },
        },
{
    if !is_text {
        return Action::Ignore;
    }
    let n = body.unicode_len();
    if n == 0 || body.get_char(0) != '!' {
        return Action::Ignore;
    }
    match Cmd::parse(body) {
        Err(e) => Action::Reply(e.message()),
        Ok(Cmd::Ping) => Action::Reply(String::from_str("pong")),
        Ok(Cmd::Help) => Action::Reply(String::from_str(
            "Available commands:\n - !add <Category>: <Amount> [Note] [#Tag...]\n - !categories\n - !help\n - !ping",
        )),
        Ok(Cmd::Categories) => Action::ListCategories,
        Ok(Cmd::Add(args)) => match local_date {
            None => Action::Ignore,
            Some(date) => {
                let AddArgs { category, amount, note, tags } = args;
                let t = Transaction::withdrawal(
                    category,
                    amount,
                    date,
                    source_id,
                    String::from_str("General expense"),
                    String::from_str(sender),
                    note,
                    tags,
                );
                Action::CreateWithdrawal(Transactions::new(t))
            },
        },
    }
}

/// Decides what one inbound event leads to, converting the event's server
/// timestamp (unix milliseconds) to local time itself. Whatever date text
/// the calendar gives, a routed `!add` creates exactly the withdrawal
/// synthesized from its request; an event whose timestamp the calendar
/// cannot represent is ignored.
pub fn route(is_text: bool, body: &str, sender: &str, unix_millis: i64, source_id: i64) -> (a:
    Action)
    ensures
        !(is_text && starts_with_bang(body@)) ==> a is Ignore,
        is_text && starts_with_bang(body@) ==> match parse_cmd_spec(body@) {
            Err(e) => a matches Action::Reply(m) && m@ == error_message(e),
            Ok(CmdV::Ping) => a matches Action::Reply(m) && m@ == "pong"@,
            Ok(CmdV::Help) => a matches Action::Reply(m) && m@ == help_text(),
            Ok(CmdV::Categories) => a is ListCategories,
            Ok(CmdV::Add(req)) => match a {
                Action::CreateWithdrawal(payload) => payload.transactions@.len() == 1
                    && synthesized_from(payload.transactions@[0]@, req, sender@, source_id),
                Action::Ignore => true,
                _ => false,
            },
        },
{
    let local_date = local_rfc3339(unix_millis);
    route_with_date(is_text, body, sender, local_date, source_id)
}

/// The bullet list under the `!categories` header, one line per name.
pub open spec fn bullets(names: Seq<Seq<char>>) -> Seq<char>
    decreases names.len(),
{
    if names.len() == 0 {
        Seq::<char>::empty()
    } else {
        "\n - "@ + names[0] + bullets(names.drop_first())
    }
}

/// The reply to `!categories`: the header, then one bullet per name.
pub open spec fn categories_reply(names: Seq<Seq<char>>) -> Seq<char> {
    "Categories:"@ + bullets(names)
}

proof fn lemma_bullets_push(names: Seq<Seq<char>>, x: Seq<char>)
    ensures
        bullets(names.push(x)) == bullets(names) + ("\n - "@ + x),
    decreases names.len(),
{
    reveal_with_fuel(bullets, 3);
    if names.len() == 0 {
        assert(names.push(x)[0] == x);
        assert(names.push(x).drop_first() =~= Seq::<Seq<char>>::empty());
        assert("\n - "@ + x + Seq::<char>::empty() =~= bullets(names) + ("\n - "@ + x));
    } else {
        assert(names.push(x)[0] == names[0]);
        assert(names.push(x).drop_first() =~= names.drop_first().push(x));
        lemma_bullets_push(names.drop_first(), x);
        assert("\n - "@ + names[0] + (bullets(names.drop_first()) + ("\n - "@ + x))
            =~= ("\n - "@ + names[0] + bullets(names.drop_first())) + ("\n - "@ + x));
    }
}

/// The reply for the outcome of the list-categories call: the formatted list
/// on success, a fixed sentence on failure — backend detail never reaches the
/// conversation.
pub fn categories_outcome(result: Option<Vec<String>>) -> (reply: String)
    ensures
        match result {
            Some(names) => reply@ == categories_reply(names.deep_view()),
            None => reply@ == "Failed to list categories"@,
        },
{
    match result {
        None => String::from_str("Failed to list categories"),
        Some(names) => {
            let ghost dv = names.deep_view();
            let mut reply = String::from_str("Categories:");
            proof {
                assert(dv.take(0) =~= Seq::<Seq<char>>::empty());
                assert(reply@ =~= "Categories:"@ + bullets(dv.take(0)));
            }
            let mut i: usize = 0;
            while i < names.len()
                invariant
                    0 <= i <= names@.len(),
                    dv == names.deep_view(),
                    dv.len() == names@.len(),
                    reply@ == "Categories:"@ + bullets(dv.take(i as int)),
                decreases names@.len() - i,
            {
                reply.append("\n - ");
                reply.append(names[i].as_str());
                proof {
                    lemma_bullets_push(dv.take(i as int), dv[i as int]);
                    assert(dv.take(i + 1) =~= dv.take(i as int).push(dv[i as int]));
                    assert(reply@ =~= "Categories:"@ + bullets(dv.take(i + 1)));
                }
                i = i + 1;
            }
            proof {
                assert(dv.take(dv.len() as int) =~= dv);
            }
            reply
        },
    }
}

/// The reaction posted on the triggering message for the outcome of a
/// create-transaction call.
pub fn add_outcome(created: bool) -> (reaction: String)
    ensures
        created ==> reaction@ == "✅"@,
        !created ==> reaction@ == "❌"@,
{
    if created {
        String::from_str("✅")
    } else {
        String::from_str("❌")
    }
}

} // verus!
