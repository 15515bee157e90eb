//! What the Discord side decides and writes: the ids of the claim buttons and how a click on
//! one is read, the replies to clicks, the reaction emojis and how a reaction is read, and the
//! texts of the notices.
use vstd::prelude::*;

use crate::mac::{mac_text, parse_mac_spec, DiscordUserId, MacAddress, UserAssociationRequest};
use crate::text::{
    chars_of, decimal_text, has_prefix, push_decimal, push_str, same_text, strip_prefix_chars,
    strip_prefix_spec,
};

verus! {

/// The start of the id of a "claim this device" button.
pub const ASSOCIATE_BUTTON_PREFIX: &'static str = "ianvs:associate:";

/// The start of the id of a "never ask again" button.
pub const NEVER_ASK_BUTTON_PREFIX: &'static str = "ianvs:never_ask:";

/// The reaction with which a user claims a device (waving hand).
pub const ASSOCIATE_EMOJI: &'static str = "\u{1F44B}";

/// The reaction with which a user asks to ignore a device (cross mark).
pub const IGNORE_EMOJI: &'static str = "\u{274C}";

/// What a button asks for.
#[derive(Debug, Clone, Copy, PartialEq, Eq, Structural)]
pub enum AssociationButtonAction {
    Associate,
    NeverAsk,
}

/// The action and address that a button id names: the claim prefix followed by an address,
/// or the never-ask prefix followed by an address.
pub open spec fn button_action_spec(id: Seq<char>) -> Option<(AssociationButtonAction, Seq<u8>)> {
    match strip_prefix_spec(id, ASSOCIATE_BUTTON_PREFIX@) {
        Some(rest) => match parse_mac_spec(rest) {
            Some(b) => Some((AssociationButtonAction::Associate, b)),
            None => None,
        },
        None => match strip_prefix_spec(id, NEVER_ASK_BUTTON_PREFIX@) {
            Some(rest) => match parse_mac_spec(rest) {
                Some(b) => Some((AssociationButtonAction::NeverAsk, b)),
                None => None,
            },
            None => None,
        },
    }
}

/// Reads the action and address from the id of a clicked button.
pub fn parse_association_button_action(custom_id: &str) -> (r: Option<
    (AssociationButtonAction, MacAddress),
>)
    ensures
        match r {
            Some((action, m)) => button_action_spec(custom_id@) == Some((action, m.bytes())),
            None => button_action_spec(custom_id@) is None,
        },
{
    let id = chars_of(custom_id);
    let associate = chars_of(ASSOCIATE_BUTTON_PREFIX);
    if let Some(suffix) = strip_prefix_chars(&id, &associate) {
        return match MacAddress::parse_chars(&suffix) {
            Some(mac) => Some((AssociationButtonAction::Associate, mac)),
            None => None,
        };
    }
    let never_ask = chars_of(NEVER_ASK_BUTTON_PREFIX);
    if let Some(suffix) = strip_prefix_chars(&id, &never_ask) {
        return match MacAddress::parse_chars(&suffix) {
            Some(mac) => Some((AssociationButtonAction::NeverAsk, mac)),
            None => None,
        };
    }
    None
}

/// The id of the button with which a user claims the device at `address`.
pub fn associate_button_id(address: MacAddress) -> (r: String)
    ensures
        r@ == ASSOCIATE_BUTTON_PREFIX@ + mac_text(address.bytes()),
{
    let mut s = String::new();
    push_str(&mut s, ASSOCIATE_BUTTON_PREFIX);
    let text = address.to_string();
    push_str(&mut s, text.as_str());
    assert(s@ =~= ASSOCIATE_BUTTON_PREFIX@ + mac_text(address.bytes()));
    s
}

/// The id of the button with which a user asks never to be asked about `address` again.
pub fn never_ask_button_id(address: MacAddress) -> (r: String)
    ensures
        r@ == NEVER_ASK_BUTTON_PREFIX@ + mac_text(address.bytes()),
{
    let mut s = String::new();
    push_str(&mut s, NEVER_ASK_BUTTON_PREFIX);
    let text = address.to_string();
    push_str(&mut s, text.as_str());
    assert(s@ =~= NEVER_ASK_BUTTON_PREFIX@ + mac_text(address.bytes()));
    s
}

proof fn lemma_strip_own_prefix(p: Seq<char>, t: Seq<char>)
    ensures
        strip_prefix_spec(p + t, p) == Some(t),
{
    assert((p + t).take(p.len() as int) =~= p);
    assert((p + t).skip(p.len() as int) =~= t);
}

/// A claim button's id is read back as a claim of the same address, and a never-ask
/// button's id as a never-ask of the same address.
pub proof fn lemma_button_id_roundtrip(address: MacAddress)
    ensures
        button_action_spec(ASSOCIATE_BUTTON_PREFIX@ + mac_text(address.bytes())) == Some(
            (AssociationButtonAction::Associate, address.bytes()),
        ),
        button_action_spec(NEVER_ASK_BUTTON_PREFIX@ + mac_text(address.bytes())) == Some(
            (AssociationButtonAction::NeverAsk, address.bytes()),
        ),
{
    let t = mac_text(address.bytes());
    crate::mac::lemma_mac_roundtrip(address);
    lemma_strip_own_prefix(ASSOCIATE_BUTTON_PREFIX@, t);
    lemma_strip_own_prefix(NEVER_ASK_BUTTON_PREFIX@, t);
    reveal_strlit("ianvs:associate:");
    reveal_strlit("ianvs:never_ask:");
    let n = NEVER_ASK_BUTTON_PREFIX@ + t;
    assert(n.take(16)[6] == 'n');
    assert(ASSOCIATE_BUTTON_PREFIX@[6] == 'a');
    assert(!has_prefix(n, ASSOCIATE_BUTTON_PREFIX@));
}

/// The request that a click on a button asks for, and the action it names, when the
/// button's id names one; `user` is the user who clicked.
pub fn button_click_request(custom_id: &str, user: DiscordUserId) -> (r: Option<
    (AssociationButtonAction, UserAssociationRequest),
>)
    ensures
        match button_action_spec(custom_id@) {
            Some((action, b)) => r matches Some((a, req)) && a == action && match action {
                AssociationButtonAction::Associate => req matches UserAssociationRequest::AssociateRequest(
                    m,
                    u,
                ) && m.bytes() == b && u == user,
                AssociationButtonAction::NeverAsk => req matches UserAssociationRequest::NeverAskForAssociationInFutureRequest(
                    m,
                ) && m.bytes() == b,
            },
            None => r is None,
        },
{
    match parse_association_button_action(custom_id) {
        Some((AssociationButtonAction::Associate, mac)) => Some(
            (
                AssociationButtonAction::Associate,
                UserAssociationRequest::AssociateRequest(mac, user),
            ),
        ),
        Some((AssociationButtonAction::NeverAsk, mac)) => Some(
            (
                AssociationButtonAction::NeverAsk,
                UserAssociationRequest::NeverAskForAssociationInFutureRequest(mac),
            ),
        ),
        None => None,
    }
}

/// The reply to the user who clicked a button, by what was asked and whether the request
/// could be queued.
pub open spec fn button_reply_spec(action: AssociationButtonAction, enqueued: bool) -> Seq<char> {
    match action {
        AssociationButtonAction::Associate => if enqueued {
            "Thanks! I've linked this device to you."@
        } else {
            "Error: failed to link device."@
        },
        AssociationButtonAction::NeverAsk => if enqueued {
            "Got it. I won't ask about, nor notify connections from this device again."@
        } else {
            "Error: failed to mark device as ignored."@
        },
    }
}

/// The reply to the user who clicked a button.
pub fn button_reply(action: AssociationButtonAction, enqueued: bool) -> (r: &'static str)
    ensures
        r@ == button_reply_spec(action, enqueued),
{
    match action {
        AssociationButtonAction::Associate => if enqueued {
            "Thanks! I've linked this device to you."
        } else {
            "Error: failed to link device."
        },
        AssociationButtonAction::NeverAsk => if enqueued {
            "Got it. I won't ask about, nor notify connections from this device again."
        } else {
            "Error: failed to mark device as ignored."
        },
    }
}

/// The emoji to claim a device and the emoji to ignore one.
pub fn reaction_emojis() -> (r: (&'static str, &'static str))
    ensures
        r.0@ == ASSOCIATE_EMOJI@,
        r.1@ == IGNORE_EMOJI@,
{
    (ASSOCIATE_EMOJI, IGNORE_EMOJI)
}

/// The request that a reaction with `emoji` by `user` on the notice about `address` asks for.
pub fn reaction_request(emoji: &str, address: MacAddress, user: DiscordUserId) -> (r: Option<
    UserAssociationRequest,
>)
    ensures
        r == (if emoji@ == ASSOCIATE_EMOJI@ {
            Some(UserAssociationRequest::AssociateRequest(address, user))
        } else if emoji@ == IGNORE_EMOJI@ {
            Some(UserAssociationRequest::NeverAskForAssociationInFutureRequest(address))
        } else {
            None::<UserAssociationRequest>
        }),
{
    if same_text(emoji, ASSOCIATE_EMOJI) {
        Some(UserAssociationRequest::AssociateRequest(address, user))
    } else if same_text(emoji, IGNORE_EMOJI) {
        Some(UserAssociationRequest::NeverAskForAssociationInFutureRequest(address))
    } else {
        None
    }
}

/// The notice that a known user connected: `<@id> connected (address)`.
pub fn user_connected_message(user: DiscordUserId, address: MacAddress) -> (r: String)
    ensures
        r@ == "<@"@ + decimal_text(user.0 as nat) + "> connected ("@ + mac_text(address.bytes())
            + ")"@,
{
    let mut s = String::new();
    push_str(&mut s, "<@");
    push_decimal(&mut s, user.0);
    push_str(&mut s, "> connected (");
    let text = address.to_string();
    push_str(&mut s, text.as_str());
    push_str(&mut s, ")");
    assert(s@ =~= "<@"@ + decimal_text(user.0 as nat) + "> connected ("@ + mac_text(
        address.bytes(),
    ) + ")"@);
    s
}

/// The notice that a known user disconnected: `<@id> disconnected (address)`.
pub fn user_disconnected_message(user: DiscordUserId, address: MacAddress) -> (r: String)
    ensures
        r@ == "<@"@ + decimal_text(user.0 as nat) + "> disconnected ("@ + mac_text(
            address.bytes(),
        ) + ")"@,
{
    let mut s = String::new();
    push_str(&mut s, "<@");
    push_decimal(&mut s, user.0);
    push_str(&mut s, "> disconnected (");
    let text = address.to_string();
    push_str(&mut s, text.as_str());
    push_str(&mut s, ")");
    assert(s@ =~= "<@"@ + decimal_text(user.0 as nat) + "> disconnected ("@ + mac_text(
        address.bytes(),
    ) + ")"@);
    s
}

/// The notice that an unknown device connected, which invites a reaction.
pub fn unknown_device_connected_message(address: MacAddress) -> (r: String)
    ensures
        r@ == "Unknown device connected: `"@ + mac_text(address.bytes()) + "`\nReact with "@
            + ASSOCIATE_EMOJI@ + " to associate or "@ + IGNORE_EMOJI@ + " to ignore"@,
{
    let mut s = String::new();
    push_str(&mut s, "Unknown device connected: `");
    let text = address.to_string();
    push_str(&mut s, text.as_str());
    push_str(&mut s, "`\nReact with ");
    let (associate, ignore) = reaction_emojis();
    push_str(&mut s, associate);
    push_str(&mut s, " to associate or ");
    push_str(&mut s, ignore);
    push_str(&mut s, " to ignore");
    assert(s@ =~= "Unknown device connected: `"@ + mac_text(address.bytes()) + "`\nReact with "@
        + ASSOCIATE_EMOJI@ + " to associate or "@ + IGNORE_EMOJI@ + " to ignore"@);
    s
}

/// The notice that an unknown device disconnected.
pub fn unknown_device_disconnected_message(address: MacAddress) -> (r: String)
    ensures
        r@ == "Unknown device disconnected: `"@ + mac_text(address.bytes()) + "`"@,
{
    let mut s = String::new();
    push_str(&mut s, "Unknown device disconnected: `");
    let text = address.to_string();
    push_str(&mut s, text.as_str());
    push_str(&mut s, "`");
    assert(s@ =~= "Unknown device disconnected: `"@ + mac_text(address.bytes()) + "`"@);
    s
}

/// serenity's mention of a user: the `Display` of `UserId::new(id).mention()`, which writes
/// `<@{id}>` with the id in decimal (as serenity's documentation of `Mention` shows).
/// `UserId::new` panics on 0, so 0 is left out.
#[verifier::external_body]
fn user_mention(id: u64) -> (r: String)
    requires
        id != 0,
    ensures
        r@ == "<@"@ + decimal_text(id as nat) + ">"@,
{
    serenity::model::mention::Mentionable::mention(&serenity::model::id::UserId::new(id)).to_string()
}

/// The notice, with buttons, that a known user joined the network: their mention, then
/// ` connected to the network.`.
pub fn user_joined_network_message(user: DiscordUserId) -> (r: String)
    requires
        user.0 != 0,
    ensures
        r@ == "<@"@ + decimal_text(user.0 as nat) + "> connected to the network."@,
{
    let mut s = user_mention(user.0);
    push_str(&mut s, " connected to the network.");
    assert(s@ =~= "<@"@ + decimal_text(user.0 as nat) + "> connected to the network."@) by {
        reveal_strlit(">");
        reveal_strlit("> connected to the network.");
        reveal_strlit(" connected to the network.");
    }
    s
}

/// The notice, with buttons, that a known user left the network: their mention, then
/// ` left the network.`.
pub fn user_left_network_message(user: DiscordUserId) -> (r: String)
    requires
        user.0 != 0,
    ensures
        r@ == "<@"@ + decimal_text(user.0 as nat) + "> left the network."@,
{
    let mut s = user_mention(user.0);
    push_str(&mut s, " left the network.");
    assert(s@ =~= "<@"@ + decimal_text(user.0 as nat) + "> left the network."@) by {
        reveal_strlit(">");
        reveal_strlit("> left the network.");
        reveal_strlit(" left the network.");
    }
    s
}

/// Whether an interaction is one the bot answers: a click on a component of a message that
/// the bot itself wrote.
pub fn interaction_applies(is_message_component: bool, message_author_id: u64, bot_user_id: u64) -> (r:
    bool)
    ensures
        r == (is_message_component && message_author_id == bot_user_id),
{
    is_message_component && message_author_id == bot_user_id
}

/// Whether a reaction is one the bot reads: in the tracked channel, with a Unicode emoji,
/// by a known user who is not the bot itself.
pub fn reaction_applies(
    reaction_channel_id: u64,
    tracked_channel_id: u64,
    emoji_is_unicode: bool,
    reacting_user_id: Option<u64>,
    bot_user_id: u64,
) -> (r: bool)
    ensures
        r == (reaction_channel_id == tracked_channel_id && emoji_is_unicode && match reacting_user_id {
            Some(u) => u != bot_user_id,
            None => false,
        }),
{
    if reaction_channel_id != tracked_channel_id || !emoji_is_unicode {
        return false;
    }
    match reacting_user_id {
        Some(u) => u != bot_user_id,
        None => false,
    }
}

/// Whether a notice about an unknown device stays tracked once the two reaction buttons were
/// added to it: only if both were added.
pub fn keep_tracking_notice(associate_reaction_added: bool, ignore_reaction_added: bool) -> (r:
    bool)
    ensures
        r == (associate_reaction_added && ignore_reaction_added),
{
    associate_reaction_added && ignore_reaction_added
}

} // verus!
