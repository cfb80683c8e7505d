//! The command grammar: turns the text of an inbound message into a typed
//! command, or into a parse error whose text is relayed back to the user.
//!
//! A message is split at its first space into a verb and its arguments. The
//! `!add` arguments are `<category>: <amount> [note] [#tag ...]`: category
//! before the first `:`, the amount token up to the next space (an optional
//! leading `$` is ignored), and a free-text tail holding an optional note
//! and `#`-prefixed tags.

use vstd::prelude::*;
use vstd::string::*;

use crate::amount::float_token;
use crate::amount::is_float_token;
use crate::amount::lemma_float_token_shape;
use crate::text::all_ws;
use crate::text::find_char;
use crate::text::find_in_str;
use crate::text::hash_segments;
use crate::text::hash_split;
use crate::text::is_ws;
use crate::text::lemma_clean_parts_elems;
use crate::text::lemma_find_char_is;
use crate::text::lemma_hash_segments_head;
use crate::text::lemma_hash_segments_no_hash;
use crate::text::lemma_trim_idempotent;
use crate::text::lemma_trim_noop;
use crate::text::lemma_trim_pad;
use crate::text::lemma_trimmed_ends;
use crate::text::split_hash;
use crate::text::str_eq;
use crate::text::trim;
use crate::text::trim_seq;

verus! {

/// The arguments of a parsed `!add` command.
#[derive(Debug)]
pub struct AddArgs {
    pub category: String,
    pub amount: String,
    pub note: Option<String>,
    pub tags: Vec<String>,
}

/// The mathematical shape of parsed `!add` arguments.
#[verifier::ext_equal]
pub struct AddArgsV {
    pub category: Seq<char>,
    pub amount: Seq<char>,
    pub note: Option<Seq<char>>,
    pub tags: Seq<Seq<char>>,
}

impl View for AddArgs {
    type V = AddArgsV;

    open spec fn view(&self) -> AddArgsV {
        AddArgsV {
            category: self.category@,
            amount: self.amount@,
            note: self.note.deep_view(),
            tags: self.tags.deep_view(),
        }
    }
}

/// A command a user can give the bot.
#[derive(Debug)]
pub enum Cmd {
    Ping,
    Help,
    Categories,
    Add(AddArgs),
}

#[verifier::ext_equal]
pub enum CmdV {
    Ping,
    Help,
    Categories,
    Add(AddArgsV),
}

impl View for Cmd {
    type V = CmdV;

    open spec fn view(&self) -> CmdV {
        match self {
            Cmd::Ping => CmdV::Ping,
            Cmd::Help => CmdV::Help,
            Cmd::Categories => CmdV::Categories,
            Cmd::Add(args) => CmdV::Add(args@),
        }
    }
}

/// Why a message failed to parse; its text goes back to the user unchanged.
#[derive(Debug)]
pub enum ParseError {
    UnknownCommand(String),
    InvalidArguments,
    InvalidAmount(String),
}

#[verifier::ext_equal]
pub enum ParseErrorV {
    UnknownCommand(Seq<char>),
    InvalidArguments,
    InvalidAmount(Seq<char>),
}

impl View for ParseError {
    type V = ParseErrorV;

    open spec fn view(&self) -> ParseErrorV {
        match self {
            ParseError::UnknownCommand(verb) => ParseErrorV::UnknownCommand(verb@),
            ParseError::InvalidArguments => ParseErrorV::InvalidArguments,
            ParseError::InvalidAmount(token) => ParseErrorV::InvalidAmount(token@),
        }
    }
}

pub open spec fn error_message(e: ParseErrorV) -> Seq<char> {
    match e {
        ParseErrorV::UnknownCommand(verb) => "Unknown command: "@ + verb,
        ParseErrorV::InvalidArguments =>
            "Invalid arguments. Usage: !add <Category>: <Amount> [Note] [#Tag...]"@,
        ParseErrorV::InvalidAmount(token) => "Invalid amount: "@ + token,
    }
}

impl ParseError {
    /// The reply text for this error.
    pub fn message(&self) -> (text: String)
        ensures
            text@ == error_message(self@),
    {
        match self {
            ParseError::UnknownCommand(verb) => {
                let mut text = String::from_str("Unknown command: ");
                text.append(verb.as_str());
                text
            }
            ParseError::InvalidArguments => String::from_str(
                "Invalid arguments. Usage: !add <Category>: <Amount> [Note] [#Tag...]",
            ),
            ParseError::InvalidAmount(token) => {
                let mut text = String::from_str("Invalid amount: ");
                text.append(token.as_str());
                text
            }
        }
    }
}

/// Note and tags read from the free-text tail of an `!add` command, assuming
/// the tail is already trimmed: no note when the tail is empty or opens with
/// `#`; otherwise the first cleaned `#`-segment is the note and the rest are
/// the tags.
pub open spec fn parse_tail(tail: Seq<char>) -> (Option<Seq<char>>, Seq<Seq<char>>) {
    if tail.len() == 0 {
        (None, Seq::<Seq<char>>::empty())
    } else if tail[0] == '#' {
        (None, hash_segments(tail))
    } else if hash_segments(tail).len() > 0 {
        (Some(hash_segments(tail)[0]), hash_segments(tail).drop_first())
    } else {
        (None, Seq::<Seq<char>>::empty())
    }
}

/// What parsing `!add` arguments returns, on any argument text.
pub open spec fn parse_add_spec(args: Seq<char>) -> Result<AddArgsV, ParseErrorV> {
    let ci = find_char(args, ':');
    if !(0 <= ci < args.len()) {
        Err(ParseErrorV::InvalidArguments)
    } else {
        let category = trim_seq(args.subrange(0, ci));
        let rest = trim_seq(args.subrange(ci + 1, args.len() as int));
        let si = find_char(rest, ' ');
        let amount_tok = if 0 <= si < rest.len() {
            rest.subrange(0, si)
        } else {
            rest
        };
        let tail = if 0 <= si < rest.len() {
            trim_seq(rest.subrange(si + 1, rest.len() as int))
        } else {
            Seq::<char>::empty()
        };
        let unprefixed = if amount_tok.len() > 0 && amount_tok[0] == '$' {
            amount_tok.drop_first()
        } else {
            amount_tok
        };
        let amount = trim_seq(unprefixed);
        if category.len() == 0 || amount.len() == 0 {
            Err(ParseErrorV::InvalidArguments)
        } else if !float_token(amount) {
            Err(ParseErrorV::InvalidAmount(amount))
        } else {
            let nt = parse_tail(tail);
            Ok(AddArgsV { category, amount, note: nt.0, tags: nt.1 })
        }
    }
}

/// What parsing a full message returns, on any message text.
pub open spec fn parse_cmd_spec(input: Seq<char>) -> Result<CmdV, ParseErrorV> {
    let sp = find_char(input, ' ');
    let verb = if 0 <= sp < input.len() {
        input.subrange(0, sp)
    } else {
        input
    };
    let args = if 0 <= sp < input.len() {
        input.subrange(sp + 1, input.len() as int)
    } else {
        Seq::<char>::empty()
    };
    if verb == "!help"@ {
        Ok(CmdV::Help)
    } else if verb == "!ping"@ {
        Ok(CmdV::Ping)
    } else if verb == "!categories"@ {
        Ok(CmdV::Categories)
    } else if verb == "!add"@ {
        match parse_add_spec(args) {
            Ok(a) => Ok(CmdV::Add(a)),
            Err(e) => Err(e),
        }
    } else {
        Err(ParseErrorV::UnknownCommand(verb))
    }
}

impl AddArgs {
    /// Parses the arguments of `!add`, exactly as `parse_add_spec` says.
    pub fn parse(args: &str) -> (r: Result<AddArgs, ParseError>)
        ensures
            ({
                let s = parse_add_spec(args@);
                match r {
                    Ok(a) => s == Ok::<AddArgsV, ParseErrorV>(a@),
                    Err(e) => s == Err::<AddArgsV, ParseErrorV>(e@),
                }
            }),
    {
        let n = args.unicode_len();
        let ci = find_in_str(args, ':');
        if ci == n {
            return Err(ParseError::InvalidArguments);
        }
        let category = trim(args.substring_char(0, ci));
        let rest = trim(args.substring_char(ci + 1, n));
        let rn = rest.unicode_len();
        let si = find_in_str(rest, ' ');
        let amount_tok = rest.substring_char(0, si);
        proof {
            if si == rn {
                assert(rest@.subrange(0, si as int) =~= rest@);
            }
        }
        let tn = amount_tok.unicode_len();
        let unprefixed = if tn > 0 && amount_tok.get_char(0) == '$' {
            let u = amount_tok.substring_char(1, tn);
            proof {
                assert(amount_tok@.subrange(1, tn as int) =~= amount_tok@.drop_first());
            }
            u
        } else {
            amount_tok
        };
        let amount = trim(unprefixed);
        if category.unicode_len() == 0 || amount.unicode_len() == 0 {
            return Err(ParseError::InvalidArguments);
        }
        if !is_float_token(amount) {
            return Err(ParseError::InvalidAmount(String::from_str(amount)));
        }
        let ghost spec_result = parse_add_spec(args@);
        if si == rn {
            let r = AddArgs {
                category: String::from_str(category),
                amount: String::from_str(amount),
                note: None,
                tags: Vec::new(),
            };
            proof {
                assert(r@.tags =~= Seq::<Seq<char>>::empty());
                assert(spec_result == Ok::<AddArgsV, ParseErrorV>(r@));
            }
            return Ok(r);
        }
        let tail = trim(rest.substring_char(si + 1, rn));
        if tail.unicode_len() == 0 {
            let r = AddArgs {
                category: String::from_str(category),
                amount: String::from_str(amount),
                note: None,
                tags: Vec::new(),
            };
            proof {
                assert(r@.tags =~= Seq::<Seq<char>>::empty());
                assert(spec_result == Ok::<AddArgsV, ParseErrorV>(r@));
            }
            return Ok(r);
        }
        let mut parts = hash_split(tail);
        if tail.get_char(0) == '#' {
            let r = AddArgs {
                category: String::from_str(category),
                amount: String::from_str(amount),
                note: None,
                tags: parts,
            };
            proof {
                assert(spec_result == Ok::<AddArgsV, ParseErrorV>(r@));
            }
            Ok(r)
        } else {
            proof {
                lemma_trim_idempotent(rest@.subrange(si + 1, rn as int));
                lemma_trimmed_ends(tail@);
                lemma_hash_segments_head(tail@);
                assert(parts.deep_view().len() == parts@.len());
            }
            let note = parts.remove(0);
            let r = AddArgs {
                category: String::from_str(category),
                amount: String::from_str(amount),
                note: Some(note),
                tags: parts,
            };
            proof {
                assert(r@.tags =~= hash_segments(tail@).drop_first());
                assert(spec_result == Ok::<AddArgsV, ParseErrorV>(r@));
            }
            Ok(r)
        }
    }
}

impl Cmd {
    /// Parses a full message, exactly as `parse_cmd_spec` says.
    pub fn parse(input: &str) -> (r: Result<Cmd, ParseError>)
        ensures
            ({
                let s = parse_cmd_spec(input@);
                match r {
                    Ok(c) => s == Ok::<CmdV, ParseErrorV>(c@),
                    Err(e) => s == Err::<CmdV, ParseErrorV>(e@),
                }
            }),
    {
        let n = input.unicode_len();
        let sp = find_in_str(input, ' ');
        let verb = input.substring_char(0, sp);
        proof {
            if sp == n {
                assert(input@.subrange(0, sp as int) =~= input@);
            }
        }
        if str_eq(verb, "!help") {
            return Ok(Cmd::Help);
        }
        if str_eq(verb, "!ping") {
            return Ok(Cmd::Ping);
        }
        if str_eq(verb, "!categories") {
            return Ok(Cmd::Categories);
        }
        if str_eq(verb, "!add") {
            let args: &str = if sp == n {
                ""
            } else {
                input.substring_char(sp + 1, n)
            };
            proof {
                if sp == n {
                    reveal_strlit("");
                    assert(""@ =~= Seq::<char>::empty());
                }
            }
            return match AddArgs::parse(args) {
                Ok(a) => Ok(Cmd::Add(a)),
                Err(e) => Err(e),
            };
        }
        Err(ParseError::UnknownCommand(String::from_str(verb)))
    }
}

// ---------------------------------------------------------------------------
// Laws of the grammar
// ---------------------------------------------------------------------------

/// Whitespace around the category and around the amount token does not
/// matter, and a leading `$` on the amount is accepted and ignored: every
/// well-formed `<category>: <amount>` input, however padded, parses to
/// exactly the trimmed category and the bare amount token, with no note and
/// no tags.
pub proof fn lemma_parse_add_well_formed(
    cat: Seq<char>,
    amt: Seq<char>,
    lead: Seq<char>,
    mid1: Seq<char>,
    mid2: Seq<char>,
    trail: Seq<char>,
    dollar: bool,
)
    requires
        cat.len() > 0,
        trim_seq(cat) == cat,
        !cat.contains(':'),
        float_token(amt),
        all_ws(lead),
        all_ws(mid1),
        all_ws(mid2),
        all_ws(trail),
    ensures
        ({
            let dol: Seq<char> = if dollar {
                seq!['$']
            } else {
                Seq::<char>::empty()
            };
            let args = lead + cat + mid1 + seq![':'] + mid2 + dol + amt + trail;
            parse_add_spec(args) == Ok::<AddArgsV, ParseErrorV>(
                AddArgsV {
                    category: cat,
                    amount: amt,
                    note: None,
                    tags: Seq::<Seq<char>>::empty(),
                },
            )
        }),
{
    let dol: Seq<char> = if dollar {
        seq!['$']
    } else {
        Seq::<char>::empty()
    };
    let args = lead + cat + mid1 + seq![':'] + mid2 + dol + amt + trail;
    let ci = (lead.len() + cat.len() + mid1.len()) as int;
    lemma_float_token_shape(amt);

    assert forall|j: int| 0 <= j < ci implies args[j] != ':' by {
        if j < lead.len() {
            assert(args[j] == lead[j]);
            assert(is_ws(args[j]));
        } else if j < lead.len() + cat.len() {
            assert(args[j] == cat[j - lead.len()]);
            if args[j] == ':' {
                assert(cat.contains(':'));
            }
        } else {
            assert(args[j] == mid1[j - lead.len() - cat.len()]);
            assert(is_ws(args[j]));
        }
    }
    assert(args[ci] == ':');
    lemma_find_char_is(args, ':', ci);

    assert(args.subrange(0, ci) =~= lead + cat + mid1);
    lemma_trim_pad(lead, cat, mid1);

    let core = dol + amt;
    assert(args.subrange(ci + 1, args.len() as int) =~= mid2 + core + trail);
    assert(core.len() > 0);
    if dollar {
        assert(core[0] == '$');
        assert(core.last() == amt.last());
    } else {
        assert(core =~= amt);
    }
    lemma_trim_noop(core);
    lemma_trim_pad(mid2, core, trail);

    assert forall|j: int| 0 <= j < core.len() implies core[j] != ' ' by {
        if dollar && j == 0 {
        } else {
            assert(core[j] == amt[j - dol.len()]);
            if core[j] == ' ' {
                assert(amt.contains(' '));
            }
        }
    }
    lemma_find_char_is(core, ' ', core.len() as int);

    if dollar {
        assert(core.drop_first() =~= amt);
    } else {
        assert(core[0] == amt[0]);
    }
    lemma_trim_noop(amt);

    let r = parse_add_spec(args);
    assert(r is Ok);
    assert(r->Ok_0 =~~= AddArgsV {
        category: cat,
        amount: amt,
        note: None,
        tags: Seq::<Seq<char>>::empty(),
    });
}

/// Every tag of a parsed `!add` command is trimmed and non-empty: candidates
/// arising from consecutive or trailing `#` are dropped, and the order of the
/// remaining ones is the order written.
pub proof fn lemma_parse_add_tags_clean(args: Seq<char>)
    ensures
        parse_add_spec(args) matches Ok(a) ==> forall|i: int|
            0 <= i < a.tags.len() ==> (#[trigger] a.tags[i]).len() > 0 && trim_seq(a.tags[i])
                == a.tags[i],
{
    if parse_add_spec(args) is Ok {
        let a = parse_add_spec(args)->Ok_0;
        let ci = find_char(args, ':');
        if 0 <= ci < args.len() {
            let rest = trim_seq(args.subrange(ci + 1, args.len() as int));
            let si = find_char(rest, ' ');
            let tail = if 0 <= si < rest.len() {
                trim_seq(rest.subrange(si + 1, rest.len() as int))
            } else {
                Seq::<char>::empty()
            };
            let segs = hash_segments(tail);
            lemma_clean_parts_elems(split_hash(tail));
            assert forall|i: int| 0 <= i < a.tags.len() implies (#[trigger] a.tags[i]).len() > 0
                && trim_seq(a.tags[i]) == a.tags[i] by {
                if tail.len() > 0 && tail[0] == '#' {
                    assert(a.tags[i] == segs[i]);
                } else if tail.len() > 0 && segs.len() > 0 {
                    assert(a.tags[i] == segs[i + 1]);
                }
            }
        }
    }
}

/// A tail without `#` is all note: its entire (already trimmed) content
/// becomes the note and no tags are produced.
pub proof fn lemma_tail_without_hash(tail: Seq<char>)
    requires
        trim_seq(tail) == tail,
        tail.len() > 0,
        !tail.contains('#'),
    ensures
        parse_tail(tail) == (Some(tail), Seq::<Seq<char>>::empty()),
{
    lemma_hash_segments_no_hash(tail);
    assert(tail[0] != '#') by {
        if tail[0] == '#' {
            assert(tail.contains('#'));
        }
    }
    assert(hash_segments(tail) =~= seq![tail]);
    assert(hash_segments(tail).drop_first() =~= Seq::<Seq<char>>::empty());
}

/// A tail that opens with `#` yields no note, and all non-empty trimmed
/// `#`-segments become the tags.
pub proof fn lemma_tail_with_hash(tail: Seq<char>)
    requires
        tail.len() > 0,
        tail[0] == '#',
    ensures
        parse_tail(tail).0 is None,
        parse_tail(tail).1 == hash_segments(tail),
{
}

/// Parsing is pure: the result is a function of the message text alone, so
/// the same text always parses the same way, whatever was parsed before.
/// (`Cmd::parse` ensures its result equals `parse_cmd_spec` of its input's
/// view, so this carries over to the executable parser.)
pub proof fn lemma_parse_pure(a: Seq<char>, b: Seq<char>)
    requires
        a == b,
    ensures
        parse_cmd_spec(a) == parse_cmd_spec(b),
{
}

} // verus!
