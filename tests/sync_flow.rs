use slack_system_bot::sync::{
    handle_sync_command, parse_direction, parse_entities, select_entities, summary, Direction,
    Entity, EntitySet, SyncConversation, SyncConversations, SyncStep,
};

const USER: &str = "U123";
const DM: &str = "D456";

const ENTITIES_PROMPT: &str = "Which entities? Reply with a comma-separated list from the following:\nmembers, switches, systems, groups, messages\nOr reply with `all` to sync everything.";
const DIRECTION_PROMPT: &str = "Which direction do you want to sync?\nReply with one of: pk_to_plura, plura_to_pk, sp_to_plura, plura_to_sp";
const ENTITIES_RETRY: &str = "Please reply with at least one valid entity from: members, switches, systems, groups, messages\nOr reply with `all`.";
const PK_PROMPT: &str = "Please provide your PluralKit token.";
const SP_PROMPT: &str = "Please provide your SimplyPlural token.";
const PRIVACY: &str = "Please run `/sync` in a DM with me for your privacy.";

fn only(members: bool, switches: bool, systems: bool, groups: bool, messages: bool) -> EntitySet {
    EntitySet { members, switches, systems, groups, messages }
}

fn at_entities(direction: &str) -> SyncConversations {
    let mut store = SyncConversations::new();
    handle_sync_command(USER, DM, "", &mut store);
    handle_sync_command(USER, DM, direction, &mut store);
    store
}

#[test]
fn direction_reply_asks_for_entities() {
    let mut store = SyncConversations::new();
    let first = handle_sync_command(USER, DM, "", &mut store);
    assert_eq!(first, DIRECTION_PROMPT);
    let reply = handle_sync_command(USER, DM, "pk_to_plura", &mut store);
    assert_eq!(reply, ENTITIES_PROMPT);
    for name in ["members", "switches", "systems", "groups", "messages"] {
        assert!(reply.contains(name));
    }
    assert_eq!(store.step_of(USER), Some(SyncStep::Entities));
    assert_eq!(store.get(USER).unwrap().direction(), Some(Direction::PkToPlura));
}

#[test]
fn unknown_direction_reprompts() {
    let mut store = SyncConversations::new();
    let reply = handle_sync_command(USER, DM, "pk_to_sp", &mut store);
    assert_eq!(reply, DIRECTION_PROMPT);
    assert_eq!(store.step_of(USER), Some(SyncStep::Direction));
    assert_eq!(store.get(USER).unwrap().direction(), None);
}

#[test]
fn direction_is_trimmed_but_exact() {
    assert_eq!(parse_direction("  sp_to_plura \n"), Some(Direction::SpToPlura));
    assert_eq!(parse_direction("plura_to_sp"), Some(Direction::PluraToSp));
    assert_eq!(parse_direction("PK_TO_PLURA"), None);
    assert_eq!(parse_direction(""), None);
}

#[test]
fn all_selects_every_entity_and_asks_pluralkit_token() {
    let mut store = at_entities("pk_to_plura");
    let reply = handle_sync_command(USER, DM, "all", &mut store);
    assert_eq!(reply, PK_PROMPT);
    let convo = store.get(USER).unwrap();
    assert_eq!(convo.step(), SyncStep::FirstToken);
    assert_eq!(convo.entities(), Some(only(true, true, true, true, true)));
    assert_eq!(convo.entities(), Some(EntitySet::all()));
}

#[test]
fn unknown_entity_is_dropped() {
    let mut store = at_entities("pk_to_plura");
    handle_sync_command(USER, DM, "bogus,members", &mut store);
    let convo = store.get(USER).unwrap();
    assert_eq!(convo.step(), SyncStep::FirstToken);
    assert_eq!(convo.entities(), Some(only(true, false, false, false, false)));
}

#[test]
fn only_unknown_entities_are_rejected() {
    let mut store = at_entities("pk_to_plura");
    let reply = handle_sync_command(USER, DM, "bogus", &mut store);
    assert_eq!(reply, ENTITIES_RETRY);
    let convo = store.get(USER).unwrap();
    assert_eq!(convo.step(), SyncStep::Entities);
    assert_eq!(convo.entities(), None);
    assert_eq!(convo.direction(), Some(Direction::PkToPlura));
}

#[test]
fn entity_parsing_ignores_order_and_case() {
    let a = parse_entities("Members, SWITCHES");
    let b = parse_entities("switches,members");
    assert_eq!(a, b);
    assert_eq!(a, Some(only(true, true, false, false, false)));
    assert!(a.unwrap().contains(Entity::Switches));
    assert!(!a.unwrap().contains(Entity::Groups));
}

#[test]
fn entity_parsing_lowercases_the_reply() {
    assert_eq!(parse_entities("  ALL "), Some(EntitySet::all()));
    assert_eq!(parse_entities("Groups"), Some(only(false, false, false, true, false)));
}

#[test]
fn entity_selection_reads_comma_fields() {
    assert_eq!(select_entities("all"), Some(EntitySet::all()));
    assert_eq!(select_entities("all,members"), Some(only(true, false, false, false, false)));
    assert_eq!(select_entities(" messages ,, systems,messages"), Some(only(false, false, true, false, true)));
    assert_eq!(select_entities("members switches"), None);
    assert_eq!(select_entities(""), None);
    assert_eq!(select_entities(","), None);
}

#[test]
fn two_tokens_finish_with_a_redacted_summary() {
    let mut store = at_entities("pk_to_plura");
    handle_sync_command(USER, DM, "members,switches", &mut store);
    let second = handle_sync_command(USER, DM, " pk-secret ", &mut store);
    assert_eq!(second, SP_PROMPT);
    assert_eq!(store.step_of(USER), Some(SyncStep::SecondToken));
    let done = handle_sync_command(USER, DM, "sp-secret", &mut store);
    assert!(done.contains("Direction"));
    assert!(done.contains("Entities"));
    assert_eq!(done.matches("[hidden]").count(), 2);
    assert!(!done.contains("pk-secret"));
    assert!(!done.contains("sp-secret"));
    assert_eq!(
        done,
        "Syncing!\nDirection: Some(\"pk_to_plura\")\nEntities: Some([\"members\", \"switches\"])\nPK Token: [hidden]\nSP Token: [hidden]"
    );
    assert!(!store.contains(USER));
    assert_eq!(store.len(), 0);
    assert!(store.get(USER).is_none());
}

#[test]
fn simplyplural_direction_asks_its_token_first() {
    let mut store = at_entities("sp_to_plura");
    let first = handle_sync_command(USER, DM, "groups", &mut store);
    assert_eq!(first, SP_PROMPT);
    let second = handle_sync_command(USER, DM, "sp-secret", &mut store);
    assert_eq!(second, PK_PROMPT);
    let done = handle_sync_command(USER, DM, "pk-secret", &mut store);
    assert_eq!(
        done,
        "Syncing!\nDirection: Some(\"sp_to_plura\")\nEntities: Some([\"groups\"])\nPK Token: [hidden]\nSP Token: [hidden]"
    );
    assert!(!store.contains(USER));
}

#[test]
fn blank_tokens_reprompt() {
    let mut store = at_entities("plura_to_sp");
    handle_sync_command(USER, DM, "all", &mut store);
    assert_eq!(handle_sync_command(USER, DM, "  \t ", &mut store), SP_PROMPT);
    assert_eq!(store.step_of(USER), Some(SyncStep::FirstToken));
    handle_sync_command(USER, DM, "tok", &mut store);
    assert_eq!(handle_sync_command(USER, DM, "", &mut store), PK_PROMPT);
    assert_eq!(store.step_of(USER), Some(SyncStep::SecondToken));
}

#[test]
fn a_new_conversation_starts_after_finishing() {
    let mut store = at_entities("plura_to_pk");
    handle_sync_command(USER, DM, "members", &mut store);
    handle_sync_command(USER, DM, "a", &mut store);
    handle_sync_command(USER, DM, "b", &mut store);
    assert!(!store.contains(USER));
    assert_eq!(handle_sync_command(USER, DM, "hello", &mut store), DIRECTION_PROMPT);
    assert_eq!(store.step_of(USER), Some(SyncStep::Direction));
}

#[test]
fn users_have_separate_conversations() {
    let mut store = SyncConversations::new();
    handle_sync_command("U1", DM, "pk_to_plura", &mut store);
    handle_sync_command("U2", DM, "nothing", &mut store);
    assert_eq!(store.len(), 2);
    assert_eq!(store.step_of("U1"), Some(SyncStep::Entities));
    assert_eq!(store.step_of("U2"), Some(SyncStep::Direction));
    assert_eq!(store.step_of("U3"), None);
}

#[test]
fn public_channel_gets_the_privacy_reply() {
    let mut store = SyncConversations::new();
    assert_eq!(handle_sync_command(USER, "C789", "pk_to_plura", &mut store), PRIVACY);
    assert_eq!(handle_sync_command(USER, "", "pk_to_plura", &mut store), PRIVACY);
    assert_eq!(store.len(), 0);
    assert!(!store.contains(USER));
}

#[test]
fn public_channel_leaves_an_existing_conversation_alone() {
    let mut store = at_entities("pk_to_plura");
    assert_eq!(handle_sync_command(USER, "G1", "all", &mut store), PRIVACY);
    assert_eq!(store.step_of(USER), Some(SyncStep::Entities));
}

#[test]
fn finished_conversation_only_reports_completion() {
    let mut convo = SyncConversation::new();
    convo.advance("plura_to_pk");
    convo.advance("members");
    convo.advance("x");
    let done = convo.advance("y");
    assert!(done.starts_with("Syncing!"));
    assert_eq!(convo.step(), SyncStep::Done);
    assert_eq!(
        convo.advance("again"),
        "Sync already completed. Run `/sync` again to start a new sync."
    );
    assert_eq!(convo.step(), SyncStep::Done);
}

#[test]
fn summary_lists_entities_in_vocabulary_order() {
    assert_eq!(
        summary(Direction::PluraToSp, EntitySet::all()),
        "Syncing!\nDirection: Some(\"plura_to_sp\")\nEntities: Some([\"members\", \"switches\", \"systems\", \"groups\", \"messages\"])\nPK Token: [hidden]\nSP Token: [hidden]"
    );
    assert_eq!(Direction::PluraToPk.name(), "plura_to_pk");
}

#[test]
fn single_entity_summary_matches_debug_form() {
    let mut store = at_entities("pk_to_plura");
    handle_sync_command("U123", "D456", "members", &mut store);
    handle_sync_command("U123", "D456", "pkSecret1", &mut store);
    let done = handle_sync_command("U123", "D456", "spSecret2", &mut store);
    assert_eq!(
        done,
        "Syncing!\nDirection: Some(\"pk_to_plura\")\nEntities: Some([\"members\"])\nPK Token: [hidden]\nSP Token: [hidden]"
    );
    assert!(!done.contains("pkSecret1"));
    assert!(!done.contains("spSecret2"));
    assert!(!store.contains("U123"));
}

#[test]
fn other_users_are_untouched_by_a_message() {
    let mut store = at_entities("pk_to_plura");
    handle_sync_command("U9", DM, "sp_to_plura", &mut store);
    handle_sync_command("U9", DM, "all", &mut store);
    handle_sync_command(USER, DM, "members", &mut store);
    assert_eq!(store.step_of("U9"), Some(SyncStep::FirstToken));
    assert_eq!(store.get("U9").unwrap().direction(), Some(Direction::SpToPlura));
    assert_eq!(store.step_of(USER), Some(SyncStep::FirstToken));
}
