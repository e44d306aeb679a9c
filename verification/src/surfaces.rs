//! Surface (messaging adapter) primitives.
use vstd::prelude::*;
use crate::text::chars_of;

verus! {

/// A messaging surface the assistant speaks through.
#[derive(Debug, Clone, Copy, PartialEq, Eq, Hash, Structural)]
pub enum Surface {
    WhatsApp,
    Telegram,
    Discord,
    IMessage,
    WebChat,
    Voice,
}

/// The slug under which each surface is configured.
pub open spec fn surface_slug(s: Surface) -> Seq<char> {
    match s {
        Surface::WhatsApp => "whatsapp"@,
        Surface::Telegram => "telegram"@,
        Surface::Discord => "discord"@,
        Surface::IMessage => "imessage"@,
        Surface::WebChat => "webchat"@,
        Surface::Voice => "voice"@,
    }
}

impl Surface {
    /// The lower-case slug of the surface.
    pub fn slug(self) -> (s: &'static str)
        ensures
            s@ == surface_slug(self),
    {
        match self {
            Surface::WhatsApp => "whatsapp",
            Surface::Telegram => "telegram",
            Surface::Discord => "discord",
            Surface::IMessage => "imessage",
            Surface::WebChat => "webchat",
            Surface::Voice => "voice",
        }
    }
}

/// Distinct surfaces have distinct slugs.
pub proof fn lemma_surface_slugs_distinct(a: Surface, b: Surface)
    requires
        a != b,
    ensures
        surface_slug(a) != surface_slug(b),
{
    reveal_strlit("whatsapp");
    reveal_strlit("telegram");
    reveal_strlit("discord");
    reveal_strlit("imessage");
    reveal_strlit("webchat");
    reveal_strlit("voice");
    assert(surface_slug(a).len() != surface_slug(b).len() || surface_slug(a)[0] != surface_slug(
        b,
    )[0]);
}

/// A destination on a surface.
#[derive(Debug, Clone, PartialEq, Eq, Hash)]
pub struct Recipient {
    pub surface: Surface,
    pub address: String,
}

/// The prefix that marks a named group address.
pub open spec fn group_prefix() -> Seq<char> {
    seq!['g', 'r', 'o', 'u', 'p', ':']
}

/// Whether an address on `surface` names a group: only Telegram and Discord
/// have groups, written with a leading `-` or `#`, or with `group:`.
pub open spec fn is_group_address(surface: Surface, address: Seq<char>) -> bool {
    &&& (surface == Surface::Telegram || surface == Surface::Discord)
    &&& {
        ||| address.len() > 0 && (address[0] == '-' || address[0] == '#')
        ||| group_prefix().is_prefix_of(address)
    }
}

/// Telegram and Discord tell groups the same way: an address is a group on
/// one exactly when it is on the other.
pub proof fn lemma_groups_alike_on_telegram_and_discord(address: Seq<char>)
    ensures
        is_group_address(Surface::Telegram, address) == is_group_address(
            Surface::Discord,
            address,
        ),
{
}

/// On Telegram and Discord an address is a group exactly when it starts with
/// `-`, with `#` or with the six characters `group:`; no other surface has
/// groups.
pub proof fn lemma_group_address_forms(surface: Surface, address: Seq<char>)
    ensures
        (surface == Surface::Telegram || surface == Surface::Discord) ==> (is_group_address(
            surface,
            address,
        ) <==> ((address.len() > 0 && (address[0] == '-' || address[0] == '#')) || (
        address.len() >= 6 && address[0] == 'g' && address[1] == 'r' && address[2] == 'o'
            && address[3] == 'u' && address[4] == 'p' && address[5] == ':'))),
        !(surface == Surface::Telegram || surface == Surface::Discord) ==> !is_group_address(
            surface,
            address,
        ),
{
    if address.len() >= 6 && address[0] == 'g' && address[1] == 'r' && address[2] == 'o'
        && address[3] == 'u' && address[4] == 'p' && address[5] == ':' {
        assert(group_prefix() =~= address.subrange(0, 6));
    }
    if group_prefix().is_prefix_of(address) {
        assert(address.subrange(0, 6)[5] == address[5]);
        assert(address[0] == address.subrange(0, 6)[0]);
        assert(address[1] == address.subrange(0, 6)[1]);
        assert(address[2] == address.subrange(0, 6)[2]);
        assert(address[3] == address.subrange(0, 6)[3]);
        assert(address[4] == address.subrange(0, 6)[4]);
    }
}

impl Recipient {
    /// A recipient at `address` on `surface`.
    pub fn new(surface: Surface, address: &str) -> (r: Self)
        ensures
            r.surface == surface,
            r.address@ == address@,
    {
        Recipient { surface, address: address.to_owned() }
    }

    /// Whether this recipient looks like a group (Telegram, Discord channel).
    pub fn is_group(&self) -> (b: bool)
        ensures
            b == is_group_address(self.surface, self.address@),
    {
        match self.surface {
            Surface::Telegram | Surface::Discord => {
                let a = chars_of(self.address.as_str());
                if a.len() > 0 && (a[0] == '-' || a[0] == '#') {
                    return true;
                }
                let p = ['g', 'r', 'o', 'u', 'p', ':'];
                if a.len() < 6 {
                    return false;
                }
                let mut i: usize = 0;
                while i < 6
                    invariant
                        i <= 6 <= a.len(),
                        a@ == self.address@,
                        self.surface == Surface::Telegram || self.surface == Surface::Discord,
                        !(a@[0] == '-' || a@[0] == '#'),
                        p@ == group_prefix(),
                        forall|j: int| 0 <= j < i ==> a@[j] == group_prefix()[j],
                    decreases 6 - i,
                {
                    if a[i] != p[i] {
                        proof {
                            assert(a@.subrange(0, 6)[i as int] != group_prefix()[i as int]);
                        }
                        return false;
                    }
                    i = i + 1;
                }
                proof {
                    assert(group_prefix() =~= a@.subrange(0, 6));
                }
                true
            },
            _ => false,
        }
    }
}

} // verus!
