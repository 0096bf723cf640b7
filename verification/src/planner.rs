//! The output planner: the decision core of query handling. It takes the raw
//! message, the guild snapshot, the invoker's permissions and the fixed reply
//! framing, and decides exactly which replies to send: nothing for a message
//! without chunks, a single error reply, one mention reply, a split send, or
//! a confirmation gate when the audience is large.
//!
//! Sending is left to the caller: it performs each reply of the plan in
//! order, and for a confirmation gate it shows the prompt, waits for the
//! invoker's button (or a timeout), and resolves it through
//! [`resolve_confirmation`].

use vstd::prelude::*;

use crate::ast::Expr;
use crate::ast::ExprV;
use crate::chars::chars_of;
use crate::chars::dec_digits;
use crate::chars::u64_to_chars;
use crate::guild::Guild;
use crate::guild::GuildV;
use crate::guild::Permissions;
use crate::interpreter::interpret;
use crate::interpreter::eval_expr;
use crate::interpreter::EvalError;
use crate::interpreter::EvalErrorV;
use crate::interpreter::NameKind;
use crate::mention::cover_tokens;
use crate::mention::mention_of_key;
use crate::mention::render;
use crate::mention::user_tokens;
use crate::mention::Mention;
use crate::parser::parse_chunk_spec;
use crate::parser::parse_drql;
use crate::scanner::scan;
use crate::scanner::scan_chunks;
use crate::unionize::all_roles_and_members;
use crate::unionize::cover_of;
use crate::unionize::guild_pairs;
use crate::unionize::union_of;
use crate::unionize::unionize_set;
use crate::unionize::UnionizeSetResult;
use crate::userset::sorted_elems;
use crate::wrap::any_oversize;
use crate::wrap::join_line;
use crate::wrap::join_tokens;
use crate::wrap::wrap_spec;
use crate::wrap::wrap_string_vec;

verus! {

/// The replies to send once the audience is settled.
#[derive(Debug)]
pub enum SendPlan {
    /// Reply `No users matched.` and stop.
    NoMatches,
    /// Send exactly one reply with this content.
    Single(Vec<char>),
    /// Send the opening reply, then each part, then the closing reply.
    Multi {
        /// The opening informational reply.
        intro: Vec<char>,
        /// The mention messages, in order.
        parts: Vec<Vec<char>>,
        /// The closing reply.
        footer: Vec<char>,
    },
}

/// The value of a [`SendPlan`].
pub enum SendPlanV {
    /// Reply `No users matched.` and stop.
    NoMatches,
    /// Send exactly one reply with this content.
    Single(Seq<char>),
    /// Send the opening reply, then each part, then the closing reply.
    Multi {
        /// The opening informational reply.
        intro: Seq<char>,
        /// The mention messages, in order.
        parts: Seq<Seq<char>>,
        /// The closing reply.
        footer: Seq<char>,
    },
}

impl View for SendPlan {
    type V = SendPlanV;

    open spec fn view(&self) -> SendPlanV {
        match self {
            SendPlan::NoMatches => SendPlanV::NoMatches,
            SendPlan::Single(m) => SendPlanV::Single(m@),
            SendPlan::Multi { intro, parts, footer } => SendPlanV::Multi {
                intro: intro@,
                parts: parts.deep_view(),
                footer: footer@,
            },
        }
    }
}

/// Everything the core decides about one incoming message.
#[derive(Debug)]
pub enum Plan {
    /// The message holds no query chunk: send nothing.
    NoQuery,
    /// Send a single reply with this error text.
    ErrorReply(Vec<char>),
    /// Send the replies of the plan.
    Send(SendPlan),
    /// The audience is large: send the prompt with confirm and cancel
    /// buttons, scoped to the invoker with a timeout, and only on a
    /// confirmation perform the inner plan.
    Confirm {
        /// The prompt to show with the two buttons.
        prompt: Vec<char>,
        /// The replies to send once confirmed.
        then: SendPlan,
    },
}

/// The value of a [`Plan`].
pub enum PlanV {
    /// The message holds no query chunk: send nothing.
    NoQuery,
    /// Send a single reply with this error text.
    ErrorReply(Seq<char>),
    /// Send the replies of the plan.
    Send(SendPlanV),
    /// Show the prompt; only on a confirmation perform the inner plan.
    Confirm {
        /// The prompt to show with the two buttons.
        prompt: Seq<char>,
        /// The replies to send once confirmed.
        then: SendPlanV,
    },
}

impl View for Plan {
    type V = PlanV;

    open spec fn view(&self) -> PlanV {
        match self {
            Plan::NoQuery => PlanV::NoQuery,
            Plan::ErrorReply(m) => PlanV::ErrorReply(m@),
            Plan::Send(sp) => PlanV::Send(sp@),
            Plan::Confirm { prompt, then } => PlanV::Confirm { prompt: prompt@, then: then@ },
        }
    }
}

/// The user-visible message of an evaluation error.
pub open spec fn err_msg(e: EvalErrorV) -> Seq<char> {
    match e {
        EvalErrorV::UnresolvedId(n) => "Unable to resolve role or member ID "@ + dec_digits(
            n as int,
        ) + "."@,
        EvalErrorV::UnresolvedName(s) => "Unable to resolve role or member "@ + s + "."@,
        EvalErrorV::AmbiguousId(n) => "Both a role and a member have the ID "@ + dec_digits(
            n as int,
        ) + "."@,
        EvalErrorV::AmbiguousName(NameKind::Member, s) => "Multiple members share the tag "@ + s
            + "."@,
        EvalErrorV::AmbiguousName(NameKind::Role, s) => "Multiple roles share the name "@ + s
            + "."@,
        EvalErrorV::AmbiguousName(NameKind::Both, s) => "Both a role and a member match the name "@
            + s + "."@,
        EvalErrorV::Unmentionable(s) => "The role "@ + s
            + " is not mentionable and you lack the permission to mention it."@,
        EvalErrorV::PermissionDenied(s) => "You do not have permission to mention "@ + s + "."@,
    }
}

/// The user-visible message of a syntactic failure: the 1-based chunk index,
/// the 0-based character position within that chunk, and what went wrong.
pub open spec fn parse_err_msg(n: int, pos: int, detail: Seq<char>) -> Seq<char> {
    "Error parsing chunk "@ + dec_digits(n) + " at position "@ + dec_digits(pos) + ": "@ + detail
        + "."@
}

/// The reply when one mention token alone exceeds the message limit.
pub open spec fn oversize_msg() -> Seq<char> {
    "A single mention token exceeds the message length limit."@
}

/// The reply when the audience is empty.
pub open spec fn no_matches_msg() -> Seq<char> {
    "No users matched."@
}

/// The opening reply of a split send.
pub open spec fn intro_msg(k: int) -> Seq<char> {
    "Notification triggered by Intersection. Please wait, sending "@ + dec_digits(k)
        + " messages..."@
}

/// The confirmation prompt for a large audience of `n` members, to be sent in
/// `k` messages. The precomputed message count is always part of the prompt.
pub open spec fn prompt_msg(n: int, k: int) -> Seq<char> {
    "**Hold up!** By running this query, you are about to mention "@ + dec_digits(n) + " people."@
        + " This will require the sending of "@ + dec_digits(k) + " messages."@
        + " Are you sure?"@
}

/// The reply when a query is issued outside a guild.
pub open spec fn not_in_guild_msg() -> Seq<char> {
    "DRQL queries are not available in DMs."@
}

/// The guild snapshot a message arrives with, when it arrives in a guild.
pub open spec fn guild_opt_view(g: Option<&Guild>) -> Option<GuildV> {
    match g {
        Some(gr) => Some(gr@),
        None => None,
    }
}

/// The decision for one incoming message wherever it arrives: without a
/// guild, a message holding a query is refused; with one, the full pipeline
/// runs.
pub open spec fn incoming_plan_spec(
    content: Seq<char>,
    g: Option<GuildV>,
    p: Permissions,
    header: Seq<char>,
    footer: Seq<char>,
    limit: int,
) -> PlanV {
    match g {
        Some(gv) => plan_spec(content, gv, p, header, footer, limit),
        None => {
            if scan_chunks(content).len() == 0 {
                PlanV::NoQuery
            } else {
                PlanV::ErrorReply(not_in_guild_msg())
            }
        },
    }
}

/// The index of the first chunk at or after `i` that does not parse; the
/// number of chunks when all parse.
pub open spec fn first_bad_from(chunks: Seq<Seq<char>>, i: int) -> int
    decreases chunks.len() - i,
{
    if !(0 <= i < chunks.len()) {
        i
    } else if parse_chunk_spec(chunks[i]) is None {
        i
    } else {
        first_bad_from(chunks, i + 1)
    }
}

/// The chunk trees folded into one union, left associated. Meaningful when
/// every chunk parses and there is at least one.
pub open spec fn folded_ast(chunks: Seq<Seq<char>>) -> ExprV
    decreases chunks.len(),
{
    if chunks.len() <= 1 {
        match parse_chunk_spec(chunks[0]) {
            Some(e) => e,
            None => ExprV::UnknownId(0),
        }
    } else {
        let last = match parse_chunk_spec(chunks.last()) {
            Some(e) => e,
            None => ExprV::UnknownId(0),
        };
        ExprV::Union(Box::new(folded_ast(chunks.drop_last())), Box::new(last))
    }
}

/// The replies once the audience is settled: nothing matched, one message, or
/// a split send.
pub open spec fn send_plan_spec(
    toks: Seq<Seq<char>>,
    msgs: Seq<Seq<char>>,
    header: Seq<char>,
    footer: Seq<char>,
    limit: int,
) -> SendPlanV {
    if toks.len() == 0 {
        SendPlanV::NoMatches
    } else if join_tokens(toks, ' ').len() + header.len() <= limit {
        SendPlanV::Single(header + join_tokens(toks, ' '))
    } else {
        SendPlanV::Multi { intro: intro_msg(msgs.len() as int), parts: msgs, footer }
    }
}

/// The full decision for one incoming message: scan, parse, evaluate, cover,
/// render, pack, and gate on the audience size.
pub open spec fn plan_spec(
    content: Seq<char>,
    g: GuildV,
    p: Permissions,
    header: Seq<char>,
    footer: Seq<char>,
    limit: int,
) -> PlanV {
    let chunks = scan_chunks(content);
    if chunks.len() == 0 {
        PlanV::NoQuery
    } else {
        let bad = first_bad_from(chunks, 0);
        if bad < chunks.len() {
            PlanV::ErrorReply(
                parse_err_msg(
                    bad + 1,
                    crate::parser::parse_err_pos(chunks[bad]),
                    crate::parser::parse_err_detail(chunks[bad]),
                ),
            )
        } else {
            match eval_expr(folded_ast(chunks), g, p) {
                Err(e) => PlanV::ErrorReply(err_msg(e)),
                Ok(t) => {
                    let pairs = guild_pairs(g);
                    let cover = cover_of(pairs, pairs, t);
                    let outliers = t.difference(union_of(cover));
                    let toks = cover_tokens(cover) + user_tokens(sorted_elems(outliers));
                    if any_oversize(toks, limit) {
                        PlanV::ErrorReply(oversize_msg())
                    } else {
                        let msgs = wrap_spec(toks, limit, ' ');
                        let sp = send_plan_spec(toks, msgs, header, footer, limit);
                        if t.len() > 50 {
                            PlanV::Confirm {
                                prompt: prompt_msg(t.len() as int, msgs.len() as int),
                                then: sp,
                            }
                        } else {
                            PlanV::Send(sp)
                        }
                    }
                },
            }
        }
    }
}

/// Render the user-visible message of an evaluation error.
pub fn error_message(e: &EvalError) -> (r: Vec<char>)
    ensures
        r@ == err_msg(e@),
{
    let mut r: Vec<char>;
    match e {
        EvalError::UnresolvedId(n) => {
            r = chars_of("Unable to resolve role or member ID ");
            let mut d = u64_to_chars(*n);
            r.append(&mut d);
            let mut dot = chars_of(".");
            r.append(&mut dot);
        },
        EvalError::UnresolvedName(s) => {
            r = chars_of("Unable to resolve role or member ");
            let mut name = crate::chars::copy_chars(s.as_slice());
            r.append(&mut name);
            let mut dot = chars_of(".");
            r.append(&mut dot);
        },
        EvalError::AmbiguousId(n) => {
            r = chars_of("Both a role and a member have the ID ");
            let mut d = u64_to_chars(*n);
            r.append(&mut d);
            let mut dot = chars_of(".");
            r.append(&mut dot);
        },
        EvalError::AmbiguousName(k, s) => {
            match k {
                NameKind::Member => {
                    r = chars_of("Multiple members share the tag ");
                },
                NameKind::Role => {
                    r = chars_of("Multiple roles share the name ");
                },
                NameKind::Both => {
                    r = chars_of("Both a role and a member match the name ");
                },
            }
            let mut name = crate::chars::copy_chars(s.as_slice());
            r.append(&mut name);
            let mut dot = chars_of(".");
            r.append(&mut dot);
        },
        EvalError::Unmentionable(s) => {
            r = chars_of("The role ");
            let mut name = crate::chars::copy_chars(s.as_slice());
            r.append(&mut name);
            let mut rest = chars_of(
                " is not mentionable and you lack the permission to mention it.",
            );
            r.append(&mut rest);
        },
        EvalError::PermissionDenied(s) => {
            r = chars_of("You do not have permission to mention ");
            let mut name = crate::chars::copy_chars(s.as_slice());
            r.append(&mut name);
            let mut dot = chars_of(".");
            r.append(&mut dot);
        },
    }
    r
}

/// Render the reply for the empty audience.
pub fn no_matches_reply() -> (r: Vec<char>)
    ensures
        r@ == no_matches_msg(),
{
    chars_of("No users matched.")
}

/// Decide everything about one incoming message.
///
/// `header` opens a single mention reply; `footer` closes a split send;
/// `limit` is the platform's message length limit. A message whose scan
/// yields no chunk produces no reply at all; an audience above fifty members
/// is gated behind a confirmation prompt.
#[verifier::rlimit(100)]
pub fn plan_message(
    content: &[char],
    g: &Guild,
    p: &Permissions,
    header: &[char],
    footer: &[char],
    limit: usize,
) -> (r: Plan)
    requires
        g.wf(),
    ensures
        r@ == plan_spec(content@, g@, *p, header@, footer@, limit as int),
{
    let chunks = scan(content);
    let ghost chunksv = scan_chunks(content@);
    proof {
        assert(chunks.deep_view() == chunksv);
        assert(chunks@.len() == chunksv.len());
        assert(forall|i: int| 0 <= i < chunks@.len() ==> #[trigger] chunks@[i]@ == chunksv[i]);
    }
    if chunks.len() == 0 {
        return Plan::NoQuery;
    }
    // Parse each chunk and fold the trees into one union, left associated.
    let first = match parse_drql(chunks[0].as_slice()) {
        Ok(e) => e,
        Err(pe) => {
            proof {
                assert(first_bad_from(chunksv, 0) == 0);
            }
            return Plan::ErrorReply(parse_error_reply(1, &pe));
        },
    };
    let mut acc = first;
    let mut i: usize = 1;
    proof {
        assert(folded_ast(chunksv.take(1)) == acc@) by {
            assert(chunksv.take(1)[0] == chunksv[0]);
        }
        assert(first_bad_from(chunksv, 0) == first_bad_from(chunksv, 1));
    }
    while i < chunks.len()
        invariant
            g.wf(),
            chunksv == scan_chunks(content@),
            1 <= i <= chunks@.len(),
            chunks.deep_view() == chunksv,
            chunks@.len() == chunksv.len(),
            forall|k: int| 0 <= k < chunks@.len() ==> #[trigger] chunks@[k]@ == chunksv[k],
            acc@ == folded_ast(chunksv.take(i as int)),
            first_bad_from(chunksv, 0) == first_bad_from(chunksv, i as int),
        decreases chunks@.len() - i,
    {
        let ghost taken = chunksv.take(i as int + 1);
        proof {
            assert(taken.drop_last() =~= chunksv.take(i as int));
            assert(taken.last() == chunksv[i as int]);
        }
        match parse_drql(chunks[i].as_slice()) {
            Ok(e) => {
                acc = Expr::Union(Box::new(acc), Box::new(e));
                proof {
                    assert(acc@ == folded_ast(taken));
                }
            },
            Err(pe) => {
                proof {
                    assert(parse_chunk_spec(chunksv[i as int]) is None);
                    assert(first_bad_from(chunksv, i as int) == i as int);
                    assert(first_bad_from(chunksv, 0) == i as int);
                }
                let chunk_index = i + 1;
                return Plan::ErrorReply(parse_error_reply(chunk_index, &pe));
            },
        }
        i += 1;
    }
    proof {
        assert(chunksv.take(chunksv.len() as int) == chunksv);
        assert(first_bad_from(chunksv, chunksv.len() as int) == chunksv.len());
    }
    // Evaluate against the guild.
    let members = match interpret(&acc, g, p) {
        Ok(m) => m,
        Err(e) => {
            return Plan::ErrorReply(error_message(&e));
        },
    };
    // Cover the audience with roles and collect the outliers.
    let pairs = all_roles_and_members(g);
    let UnionizeSetResult { sets, outliers } = unionize_set(&members, &pairs);
    let ghost coverv = cover_of(guild_pairs(g@), guild_pairs(g@), members@);
    proof {
        crate::unionize::lemma_pairs_view(sets@);
    }
    // Render the mention tokens: cover keys first, then the outliers.
    let mut tokens: Vec<Vec<char>> = Vec::new();
    let mut k: usize = 0;
    while k < sets.len()
        invariant
            0 <= k <= sets@.len(),
            crate::unionize::pairs_view(sets@) == coverv,
            coverv.len() == sets@.len(),
            forall|m: int|
                0 <= m < sets@.len() ==> #[trigger] coverv[m] == (sets@[m].0, sets@[m].1@),
            tokens.deep_view() == cover_tokens(coverv.take(k as int)),
        decreases sets@.len() - k,
    {
        let ghost prev = tokens.deep_view();
        let ghost taken = coverv.take(k as int + 1);
        proof {
            assert(taken.drop_last() =~= coverv.take(k as int));
            assert(taken.last() == coverv[k as int]);
        }
        let m = mention_of_key(&sets[k].0);
        let tok = render(&m);
        tokens.push(tok);
        proof {
            assert(tokens.deep_view() =~~= prev.push(crate::mention::render_mention(
                crate::mention::key_mention(coverv[k as int].0),
            )));
            assert(tokens.deep_view() =~= cover_tokens(taken));
        }
        k += 1;
    }
    proof {
        assert(coverv.take(coverv.len() as int) == coverv);
    }
    let ghost outlierv = sorted_elems(outliers@);
    let outlier_ids = outliers.to_vec();
    proof {
        assert(outlier_ids@ == outlierv);
    }
    let ghost base_tokens = tokens.deep_view();
    let mut k2: usize = 0;
    while k2 < outlier_ids.len()
        invariant
            0 <= k2 <= outlier_ids@.len(),
            outlier_ids@ == outlierv,
            tokens.deep_view() == base_tokens + user_tokens(outlierv.take(k2 as int)),
            base_tokens == cover_tokens(coverv),
        decreases outlier_ids@.len() - k2,
    {
        let ghost prev = tokens.deep_view();
        let ghost taken = outlierv.take(k2 as int + 1);
        proof {
            assert(taken.drop_last() =~= outlierv.take(k2 as int));
            assert(taken.last() == outlierv[k2 as int]);
        }
        let tok = render(&Mention::User(outlier_ids[k2]));
        tokens.push(tok);
        proof {
            assert(tokens.deep_view() =~~= prev.push(crate::mention::render_mention(
                Mention::User(outlierv[k2 as int]),
            )));
            assert(tokens.deep_view() =~= base_tokens + user_tokens(taken));
        }
        k2 += 1;
    }
    proof {
        assert(outlierv.take(outlierv.len() as int) == outlierv);
    }
    let ghost toksv = tokens.deep_view();
    // Pack into messages and shape the sends.
    let msgs = match wrap_string_vec(&tokens, ' ', limit) {
        Some(m) => m,
        None => {
            return Plan::ErrorReply(chars_of(
                "A single mention token exceeds the message length limit.",
            ));
        },
    };
    let parts_count = msgs.len();
    let sp: SendPlan;
    if tokens.len() == 0 {
        sp = SendPlan::NoMatches;
    } else {
        let joined = join_line(&tokens, ' ');
        if joined.len() <= limit && header.len() <= limit - joined.len() {
            let mut single = crate::chars::copy_chars(header);
            let mut j = joined;
            single.append(&mut j);
            sp = SendPlan::Single(single);
        } else {
            let intro = intro_reply(msgs.len());
            sp = SendPlan::Multi { intro, parts: msgs, footer: crate::chars::copy_chars(footer) };
        }
    }
    proof {
        assert(sp@ == send_plan_spec(
            toksv,
            wrap_spec(toksv, limit as int, ' '),
            header@,
            footer@,
            limit as int,
        ));
    }
    // Gate a large audience behind a confirmation prompt.
    let n = members.len();
    if n > 50 {
        let prompt = prompt_reply(n, parts_count);
        Plan::Confirm { prompt, then: sp }
    } else {
        Plan::Send(sp)
    }
}

/// Decide everything about one incoming message, wherever it arrives: a
/// message without a query chunk gets no reply; a query outside a guild gets
/// the refusal; otherwise the full pipeline runs against the guild.
pub fn plan_incoming(
    content: &[char],
    g: Option<&Guild>,
    p: &Permissions,
    header: &[char],
    footer: &[char],
    limit: usize,
) -> (r: Plan)
    requires
        (g matches Some(gr) ==> gr.wf()),
    ensures
        r@ == incoming_plan_spec(content@, guild_opt_view(g), *p, header@, footer@, limit as int),
{
    match g {
        Some(gr) => plan_message(content, gr, p, header, footer, limit),
        None => {
            let chunks = scan(content);
            if chunks.len() == 0 {
                Plan::NoQuery
            } else {
                Plan::ErrorReply(chars_of("DRQL queries are not available in DMs."))
            }
        },
    }
}

/// A message whose scan yields no chunk produces no reply wherever it
/// arrives, in a guild or not.
pub proof fn lemma_no_chunks_no_reply_incoming(
    content: Seq<char>,
    g: Option<GuildV>,
    p: Permissions,
    header: Seq<char>,
    footer: Seq<char>,
    limit: int,
)
    requires
        scan_chunks(content).len() == 0,
    ensures
        incoming_plan_spec(content, g, p, header, footer, limit) == PlanV::NoQuery,
{
}

/// Render the reply for a chunk that failed to parse, from its 1-based index
/// and the failure's position and description.
fn parse_error_reply(n: usize, pe: &crate::parser::ParseError) -> (r: Vec<char>)
    requires
        n >= 1,
    ensures
        r@ == parse_err_msg(n as int, pe.position as int, pe.detail@),
{
    let mut r = chars_of("Error parsing chunk ");
    let mut d = u64_to_chars(n as u64);
    r.append(&mut d);
    let mut at = chars_of(" at position ");
    r.append(&mut at);
    let mut dp = u64_to_chars(pe.position as u64);
    r.append(&mut dp);
    let mut sep = chars_of(": ");
    r.append(&mut sep);
    let mut detail = crate::chars::copy_chars(pe.detail.as_slice());
    r.append(&mut detail);
    let mut dot = chars_of(".");
    r.append(&mut dot);
    r
}

/// Render the opening reply of a split send of `k` messages.
fn intro_reply(k: usize) -> (r: Vec<char>)
    ensures
        r@ == intro_msg(k as int),
{
    let mut r = chars_of("Notification triggered by Intersection. Please wait, sending ");
    let mut d = u64_to_chars(k as u64);
    r.append(&mut d);
    let mut rest = chars_of(" messages...");
    r.append(&mut rest);
    r
}

/// Render the confirmation prompt for an audience of `n`, sent in `k`
/// messages.
fn prompt_reply(n: usize, k: usize) -> (r: Vec<char>)
    ensures
        r@ == prompt_msg(n as int, k as int),
{
    let mut r = chars_of("**Hold up!** By running this query, you are about to mention ");
    let mut d = u64_to_chars(n as u64);
    r.append(&mut d);
    let mut p1 = chars_of(" people.");
    r.append(&mut p1);
    let mut p2 = chars_of(" This will require the sending of ");
    r.append(&mut p2);
    let mut d2 = u64_to_chars(k as u64);
    r.append(&mut d2);
    let mut p3 = chars_of(" messages.");
    r.append(&mut p3);
    let mut p4 = chars_of(" Are you sure?");
    r.append(&mut p4);
    proof {
        assert(r@ =~= prompt_msg(n as int, k as int));
    }
    r
}

/// Whether the message scans, parses and evaluates without error.
pub open spec fn pipeline_ok(content: Seq<char>, g: GuildV, p: Permissions) -> bool {
    &&& scan_chunks(content).len() > 0
    &&& first_bad_from(scan_chunks(content), 0) == scan_chunks(content).len()
    &&& eval_expr(folded_ast(scan_chunks(content)), g, p) is Ok
}

/// The audience the message evaluates to, when the pipeline succeeds.
pub open spec fn audience_of(content: Seq<char>, g: GuildV, p: Permissions) -> Set<u64> {
    match eval_expr(folded_ast(scan_chunks(content)), g, p) {
        Ok(t) => t,
        Err(_) => Set::empty(),
    }
}

/// The rendered mention tokens of the message: the cover's keys, then the
/// outliers in increasing order.
pub open spec fn mention_tokens_of(content: Seq<char>, g: GuildV, p: Permissions) -> Seq<
    Seq<char>,
> {
    let t = audience_of(content, g, p);
    let pairs = guild_pairs(g);
    let cover = cover_of(pairs, pairs, t);
    cover_tokens(cover) + user_tokens(sorted_elems(t.difference(union_of(cover))))
}

/// A message whose scan yields no chunk produces no reply at all.
pub proof fn lemma_no_chunks_no_reply(
    content: Seq<char>,
    g: GuildV,
    p: Permissions,
    header: Seq<char>,
    footer: Seq<char>,
    limit: int,
)
    requires
        scan_chunks(content).len() == 0,
    ensures
        plan_spec(content, g, p, header, footer, limit) == PlanV::NoQuery,
{
}

/// A small audience whose rendered tokens fit beside the header goes out as
/// exactly one reply.
pub proof fn lemma_small_audience_single_reply(
    content: Seq<char>,
    g: GuildV,
    p: Permissions,
    header: Seq<char>,
    footer: Seq<char>,
    limit: int,
)
    requires
        pipeline_ok(content, g, p),
        audience_of(content, g, p).len() <= 50,
        mention_tokens_of(content, g, p).len() > 0,
        join_tokens(mention_tokens_of(content, g, p), ' ').len() + header.len() <= limit,
    ensures
        plan_spec(content, g, p, header, footer, limit) == PlanV::Send(
            SendPlanV::Single(header + join_tokens(mention_tokens_of(content, g, p), ' ')),
        ),
{
    let toks = mention_tokens_of(content, g, p);
    crate::wrap::lemma_join_token_bound(toks, ' ');
    assert(!any_oversize(toks, limit));
}

/// A large audience is never sent directly: the plan routes the mention sends
/// behind the confirmation prompt, and [`resolve_confirmation`] lets them
/// proceed only on an affirmative answer.
pub proof fn lemma_large_audience_gated(
    content: Seq<char>,
    g: GuildV,
    p: Permissions,
    header: Seq<char>,
    footer: Seq<char>,
    limit: int,
)
    requires
        pipeline_ok(content, g, p),
        audience_of(content, g, p).len() > 50,
        !any_oversize(mention_tokens_of(content, g, p), limit),
    ensures
        plan_spec(content, g, p, header, footer, limit) == (PlanV::Confirm {
            prompt: prompt_msg(
                audience_of(content, g, p).len() as int,
                wrap_spec(mention_tokens_of(content, g, p), limit, ' ').len() as int,
            ),
            then: send_plan_spec(
                mention_tokens_of(content, g, p),
                wrap_spec(mention_tokens_of(content, g, p), limit, ' '),
                header,
                footer,
                limit,
            ),
        }),
{
}

/// How the confirmation gate resolved.
pub enum ConfirmOutcome {
    /// The invoker pressed the confirm button.
    Confirmed,
    /// The invoker pressed the cancel button.
    Cancelled,
    /// No button was pressed within the timeout.
    TimedOut,
}

/// The outcome of the confirmation step: what the question becomes, and
/// whether the mention sends go ahead.
pub struct ConfirmAction {
    /// The text that replaces the question.
    pub edit: Vec<char>,
    /// Whether to go on and send the mentions.
    pub proceed: bool,
}

/// Resolve the confirmation gate: only an affirmative confirmation lets the
/// mention sends proceed.
pub fn resolve_confirmation(o: &ConfirmOutcome) -> (r: ConfirmAction)
    ensures
        r.proceed == (o is Confirmed),
        o is Confirmed ==> r.edit@ == "Confirmed."@,
        o is Cancelled ==> r.edit@ == "Cancelled."@,
        o is TimedOut ==> r.edit@ == "Timed out waiting for confirmation."@,
{
    match o {
        ConfirmOutcome::Confirmed => ConfirmAction { edit: chars_of("Confirmed."), proceed: true },
        ConfirmOutcome::Cancelled => ConfirmAction {
            edit: chars_of("Cancelled."),
            proceed: false,
        },
        ConfirmOutcome::TimedOut => ConfirmAction {
            edit: chars_of("Timed out waiting for confirmation."),
            proceed: false,
        },
    }
}

} // verus!
