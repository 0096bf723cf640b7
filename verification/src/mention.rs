//! Platform mention tokens and their rendering.

use vstd::prelude::*;

use crate::chars::chars_of;
use crate::chars::dec_digits;
use crate::chars::u64_to_chars;
use crate::unionize::RoleKey;
use crate::unionize::RolePairV;

verus! {

/// A mention token to place in a reply.
pub enum Mention {
    /// `@everyone`.
    Everyone,
    /// `@here`.
    Here,
    /// `<@&id>`: the role with this identifier.
    Role(u64),
    /// `<@id>`: the user with this identifier.
    User(u64),
}

/// The rendered form of a mention token.
pub open spec fn render_mention(m: Mention) -> Seq<char> {
    match m {
        Mention::Everyone => "@everyone"@,
        Mention::Here => "@here"@,
        Mention::Role(id) => seq!['<', '@', '&'] + dec_digits(id as int) + seq!['>'],
        Mention::User(id) => seq!['<', '@'] + dec_digits(id as int) + seq!['>'],
    }
}

/// The mention token for a key of the role map.
pub open spec fn key_mention(k: RoleKey) -> Mention {
    match k {
        RoleKey::Everyone => Mention::Everyone,
        RoleKey::Here => Mention::Here,
        RoleKey::Role(id) => Mention::Role(id),
    }
}

/// The rendered tokens of a cover, in order.
pub open spec fn cover_tokens(c: Seq<RolePairV>) -> Seq<Seq<char>>
    decreases c.len(),
{
    if c.len() == 0 {
        Seq::empty()
    } else {
        cover_tokens(c.drop_last()).push(render_mention(key_mention(c.last().0)))
    }
}

/// The rendered tokens of a run of user identifiers, in order.
pub open spec fn user_tokens(us: Seq<u64>) -> Seq<Seq<char>>
    decreases us.len(),
{
    if us.len() == 0 {
        Seq::empty()
    } else {
        user_tokens(us.drop_last()).push(render_mention(Mention::User(us.last())))
    }
}

/// Render one mention token.
pub fn render(m: &Mention) -> (r: Vec<char>)
    ensures
        r@ == render_mention(*m),
{
    match m {
        Mention::Everyone => chars_of("@everyone"),
        Mention::Here => chars_of("@here"),
        Mention::Role(id) => {
            let mut v: Vec<char> = Vec::new();
            v.push('<');
            v.push('@');
            v.push('&');
            let mut d = u64_to_chars(*id);
            v.append(&mut d);
            v.push('>');
            proof {
                assert(v@ =~= render_mention(*m));
            }
            v
        },
        Mention::User(id) => {
            let mut v: Vec<char> = Vec::new();
            v.push('<');
            v.push('@');
            let mut d = u64_to_chars(*id);
            v.append(&mut d);
            v.push('>');
            proof {
                assert(v@ =~= render_mention(*m));
            }
            v
        },
    }
}

/// The executable mention token for a key of the role map.
pub fn mention_of_key(k: &RoleKey) -> (m: Mention)
    ensures
        m == key_mention(*k),
{
    match k {
        RoleKey::Everyone => Mention::Everyone,
        RoleKey::Here => Mention::Here,
        RoleKey::Role(id) => Mention::Role(*id),
    }
}

} // verus!
