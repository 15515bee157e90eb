use ianvs::discord::{interaction_applies, keep_tracking_notice, reaction_applies};
use ianvs::discord::{
    associate_button_id, button_click_request, button_reply, never_ask_button_id,
    parse_association_button_action, reaction_emojis, reaction_request,
    unknown_device_connected_message, unknown_device_disconnected_message,
    user_connected_message, user_disconnected_message, user_joined_network_message,
    user_left_network_message, AssociationButtonAction,
};
use ianvs::mac::{DiscordUserId, MacAddress, UserAssociationRequest};

const M: MacAddress = MacAddress([0xaa, 0xbb, 0xcc, 0x00, 0x11, 0x22]);

#[test]
fn button_ids() {
    assert_eq!(associate_button_id(M), "ianvs:associate:aa:bb:cc:00:11:22");
    assert_eq!(never_ask_button_id(M), "ianvs:never_ask:aa:bb:cc:00:11:22");
}

#[test]
fn button_ids_read_back() {
    assert_eq!(
        parse_association_button_action(&associate_button_id(M)),
        Some((AssociationButtonAction::Associate, M))
    );
    assert_eq!(
        parse_association_button_action(&never_ask_button_id(M)),
        Some((AssociationButtonAction::NeverAsk, M))
    );
}

#[test]
fn unknown_button_ids_are_ignored() {
    assert_eq!(parse_association_button_action("ianvs:associate:zz"), None);
    assert_eq!(parse_association_button_action("ianvs:never_ask:"), None);
    assert_eq!(parse_association_button_action("other:aa:bb:cc:00:11:22"), None);
    assert_eq!(parse_association_button_action(""), None);
}

#[test]
fn button_clicks_become_requests() {
    match button_click_request("ianvs:associate:aa:bb:cc:00:11:22", DiscordUserId(5)) {
        Some((AssociationButtonAction::Associate, UserAssociationRequest::AssociateRequest(m, u))) => {
            assert_eq!(m, M);
            assert_eq!(u, DiscordUserId(5));
        }
        other => panic!("unexpected {:?}", other),
    }
    match button_click_request("ianvs:never_ask:aa:bb:cc:00:11:22", DiscordUserId(5)) {
        Some((
            AssociationButtonAction::NeverAsk,
            UserAssociationRequest::NeverAskForAssociationInFutureRequest(m),
        )) => assert_eq!(m, M),
        other => panic!("unexpected {:?}", other),
    }
    assert!(button_click_request("nothing", DiscordUserId(5)).is_none());
}

#[test]
fn button_replies() {
    assert_eq!(
        button_reply(AssociationButtonAction::Associate, true),
        "Thanks! I've linked this device to you."
    );
    assert_eq!(
        button_reply(AssociationButtonAction::Associate, false),
        "Error: failed to link device."
    );
    assert_eq!(
        button_reply(AssociationButtonAction::NeverAsk, true),
        "Got it. I won't ask about, nor notify connections from this device again."
    );
    assert_eq!(
        button_reply(AssociationButtonAction::NeverAsk, false),
        "Error: failed to mark device as ignored."
    );
}

#[test]
fn reactions() {
    assert_eq!(reaction_emojis(), ("\u{1F44B}", "\u{274C}"));
    match reaction_request("\u{1F44B}", M, DiscordUserId(8)) {
        Some(UserAssociationRequest::AssociateRequest(m, u)) => {
            assert_eq!(m, M);
            assert_eq!(u, DiscordUserId(8));
        }
        other => panic!("unexpected {:?}", other),
    }
    match reaction_request("\u{274C}", M, DiscordUserId(8)) {
        Some(UserAssociationRequest::NeverAskForAssociationInFutureRequest(m)) => assert_eq!(m, M),
        other => panic!("unexpected {:?}", other),
    }
    assert!(reaction_request("\u{1F44D}", M, DiscordUserId(8)).is_none());
}

#[test]
fn notices() {
    assert_eq!(
        user_connected_message(DiscordUserId(1234567890), M),
        "<@1234567890> connected (aa:bb:cc:00:11:22)"
    );
    assert_eq!(
        user_disconnected_message(DiscordUserId(0), M),
        "<@0> disconnected (aa:bb:cc:00:11:22)"
    );
    assert_eq!(
        unknown_device_connected_message(M),
        "Unknown device connected: `aa:bb:cc:00:11:22`\nReact with \u{1F44B} to associate or \u{274C} to ignore"
    );
    assert_eq!(
        unknown_device_disconnected_message(M),
        "Unknown device disconnected: `aa:bb:cc:00:11:22`"
    );
}

#[test]
fn button_bot_notices() {
    assert_eq!(
        user_joined_network_message(DiscordUserId(42)),
        "<@42> connected to the network."
    );
    assert_eq!(
        user_left_network_message(DiscordUserId(18446744073709551615)),
        "<@18446744073709551615> left the network."
    );
}

#[test]
fn guards() {
    assert!(interaction_applies(true, 7, 7));
    assert!(!interaction_applies(true, 8, 7));
    assert!(!interaction_applies(false, 7, 7));
    assert!(reaction_applies(1, 1, true, Some(5), 7));
    assert!(!reaction_applies(2, 1, true, Some(5), 7));
    assert!(!reaction_applies(1, 1, false, Some(5), 7));
    assert!(!reaction_applies(1, 1, true, None, 7));
    assert!(!reaction_applies(1, 1, true, Some(7), 7));
    assert!(keep_tracking_notice(true, true));
    assert!(!keep_tracking_notice(true, false));
    assert!(!keep_tracking_notice(false, true));
}
