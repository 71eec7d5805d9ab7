//! The private conversation that collects a sync direction, the kinds of data
//! to sync and two tokens, one message at a time.
use vstd::prelude::*;
use vstd::string::*;

use crate::text::{lower_of, lowercase, same_text, trim, trimmed};

verus! {

/// Which way data moves, between PluralKit, SimplyPlural and this bot.
#[derive(Clone, Copy, Debug, PartialEq, Eq, Structural)]
pub enum Direction {
    PkToPlura,
    PluraToPk,
    SpToPlura,
    PluraToSp,
}

/// A platform whose token a sync needs.
#[derive(Clone, Copy, Debug, PartialEq, Eq, Structural)]
pub enum Platform {
    PluralKit,
    SimplyPlural,
}

/// A kind of data that a sync can move.
#[derive(Clone, Copy, Debug, PartialEq, Eq, Structural)]
pub enum Entity {
    Members,
    Switches,
    Systems,
    Groups,
    Messages,
}

/// The word a user types for a direction.
pub open spec fn direction_name(d: Direction) -> Seq<char> {
    match d {
        Direction::PkToPlura => "pk_to_plura"@,
        Direction::PluraToPk => "plura_to_pk"@,
        Direction::SpToPlura => "sp_to_plura"@,
        Direction::PluraToSp => "plura_to_sp"@,
    }
}

/// The direction that a (trimmed) reply names exactly, if any.
pub open spec fn direction_of(s: Seq<char>) -> Option<Direction> {
    if s == direction_name(Direction::PkToPlura) {
        Some(Direction::PkToPlura)
    } else if s == direction_name(Direction::PluraToPk) {
        Some(Direction::PluraToPk)
    } else if s == direction_name(Direction::SpToPlura) {
        Some(Direction::SpToPlura)
    } else if s == direction_name(Direction::PluraToSp) {
        Some(Direction::PluraToSp)
    } else {
        None
    }
}

/// The word a user types for an entity kind.
pub open spec fn entity_name(e: Entity) -> Seq<char> {
    match e {
        Entity::Members => "members"@,
        Entity::Switches => "switches"@,
        Entity::Systems => "systems"@,
        Entity::Groups => "groups"@,
        Entity::Messages => "messages"@,
    }
}

impl Direction {
    /// The platform whose token is asked for first.
    pub open spec fn first_platform(self) -> Platform {
        match self {
            Direction::PkToPlura | Direction::PluraToPk => Platform::PluralKit,
            Direction::SpToPlura | Direction::PluraToSp => Platform::SimplyPlural,
        }
    }

    /// The word a user types for this direction.
    pub fn name(&self) -> (r: &'static str)
        ensures
            r@ == direction_name(*self),
    {
        match self {
            Direction::PkToPlura => "pk_to_plura",
            Direction::PluraToPk => "plura_to_pk",
            Direction::SpToPlura => "sp_to_plura",
            Direction::PluraToSp => "plura_to_sp",
        }
    }

    /// The platform whose token is asked for first.
    pub fn first(&self) -> (r: Platform)
        ensures
            r == self.first_platform(),
    {
        match self {
            Direction::PkToPlura | Direction::PluraToPk => Platform::PluralKit,
            Direction::SpToPlura | Direction::PluraToSp => Platform::SimplyPlural,
        }
    }
}

impl Platform {
    /// The other platform.
    pub open spec fn other_platform(self) -> Platform {
        match self {
            Platform::PluralKit => Platform::SimplyPlural,
            Platform::SimplyPlural => Platform::PluralKit,
        }
    }

    /// The other platform.
    pub fn other(&self) -> (r: Platform)
        ensures
            r == self.other_platform(),
    {
        match self {
            Platform::PluralKit => Platform::SimplyPlural,
            Platform::SimplyPlural => Platform::PluralKit,
        }
    }
}

/// Parses a direction reply: the trimmed text must be one of the four words.
pub fn parse_direction(text: &str) -> (r: Option<Direction>)
    ensures
        r == direction_of(trimmed(text@)),
{
    let t = trim(text);
    if same_text(t, "pk_to_plura") {
        Some(Direction::PkToPlura)
    } else if same_text(t, "plura_to_pk") {
        Some(Direction::PluraToPk)
    } else if same_text(t, "sp_to_plura") {
        Some(Direction::SpToPlura)
    } else if same_text(t, "plura_to_sp") {
        Some(Direction::PluraToSp)
    } else {
        None
    }
}

/// A set of entity kinds.
#[derive(Clone, Copy, Debug, PartialEq, Eq, Structural)]
pub struct EntitySet {
    pub members: bool,
    pub switches: bool,
    pub systems: bool,
    pub groups: bool,
    pub messages: bool,
}

impl View for EntitySet {
    type V = Set<Entity>;

    open spec fn view(&self) -> Set<Entity> {
        Set::new(|e: Entity| self.has(e))
    }
}

impl EntitySet {
    /// Whether `e` is in the set.
    pub open spec fn has(self, e: Entity) -> bool {
        match e {
            Entity::Members => self.members,
            Entity::Switches => self.switches,
            Entity::Systems => self.systems,
            Entity::Groups => self.groups,
            Entity::Messages => self.messages,
        }
    }

    /// The set that holds every entity kind.
    pub open spec fn full() -> EntitySet {
        EntitySet { members: true, switches: true, systems: true, groups: true, messages: true }
    }

    /// Whether the set holds no entity kind.
    pub open spec fn is_empty_set(self) -> bool {
        !self.members && !self.switches && !self.systems && !self.groups && !self.messages
    }

    /// The set with `e` added where `w` is the word for `e`.
    pub open spec fn with_word(self, w: Seq<char>) -> EntitySet {
        EntitySet {
            members: self.members || w == entity_name(Entity::Members),
            switches: self.switches || w == entity_name(Entity::Switches),
            systems: self.systems || w == entity_name(Entity::Systems),
            groups: self.groups || w == entity_name(Entity::Groups),
            messages: self.messages || w == entity_name(Entity::Messages),
        }
    }

    /// The set that holds every entity kind.
    pub fn all() -> (r: EntitySet)
        ensures
            r == EntitySet::full(),
            r@ == Set::<Entity>::full(),
    {
        let r = EntitySet { members: true, switches: true, systems: true, groups: true, messages: true };
        assert(r@ =~= Set::<Entity>::full());
        r
    }

    /// Whether `e` is in the set.
    pub fn contains(&self, e: Entity) -> (r: bool)
        ensures
            r == self.has(e),
            r == self@.contains(e),
    {
        match e {
            Entity::Members => self.members,
            Entity::Switches => self.switches,
            Entity::Systems => self.systems,
            Entity::Groups => self.groups,
            Entity::Messages => self.messages,
        }
    }

    /// Whether the set holds no entity kind.
    pub fn is_empty(&self) -> (r: bool)
        ensures
            r == self.is_empty_set(),
            r == (self@ == Set::<Entity>::empty()),
    {
        proof {
            if !self.is_empty_set() {
                let e = if self.members {
                    Entity::Members
                } else if self.switches {
                    Entity::Switches
                } else if self.systems {
                    Entity::Systems
                } else if self.groups {
                    Entity::Groups
                } else {
                    Entity::Messages
                };
                assert(self@.contains(e));
            } else {
                assert(self@ =~= Set::<Entity>::empty());
            }
        }
        !self.members && !self.switches && !self.systems && !self.groups && !self.messages
    }

    /// Adds the entity kind that `w` names, if it names one.
    fn add_word(&mut self, w: &str)
        ensures
            *final(self) == old(self).with_word(w@),
    {
        if same_text(w, "members") {
            self.members = true;
        }
        if same_text(w, "switches") {
            self.switches = true;
        }
        if same_text(w, "systems") {
            self.systems = true;
        }
        if same_text(w, "groups") {
            self.groups = true;
        }
        if same_text(w, "messages") {
            self.messages = true;
        }
    }
}

/// `s[a..b]` is one of the comma-separated fields of `s`.
pub open spec fn is_field(s: Seq<char>, a: int, b: int) -> bool {
    &&& 0 <= a <= b <= s.len()
    &&& (a == 0 || s[a - 1] == ',')
    &&& (b == s.len() || s[b] == ',')
    &&& forall|k: int| a <= k < b ==> s[k] != ','
}

/// Some field of `s` that ends before `i` reads `w` once trimmed.
pub open spec fn field_before(s: Seq<char>, w: Seq<char>, i: int) -> bool {
    exists|a: int, b: int| is_field(s, a, b) && b < i && trimmed(s.subrange(a, b)) == w
}

/// Some comma-separated field of `s` reads `w` once trimmed.
pub open spec fn has_field(s: Seq<char>, w: Seq<char>) -> bool {
    field_before(s, w, (s.len() + 1) as int)
}

/// The entity kinds that some field of `s` names.
pub open spec fn listed_entities(s: Seq<char>) -> EntitySet {
    EntitySet {
        members: has_field(s, entity_name(Entity::Members)),
        switches: has_field(s, entity_name(Entity::Switches)),
        systems: has_field(s, entity_name(Entity::Systems)),
        groups: has_field(s, entity_name(Entity::Groups)),
        messages: has_field(s, entity_name(Entity::Messages)),
    }
}

/// What an entities reply selects, given its trimmed and lowercased text:
/// every kind for `all`, else the kinds that its fields name; `None` when
/// that is no kind at all.
pub open spec fn entity_selection(lowered: Seq<char>) -> Option<EntitySet> {
    let set = if lowered == "all"@ {
        EntitySet::full()
    } else {
        listed_entities(lowered)
    };
    if set.is_empty_set() {
        None
    } else {
        Some(set)
    }
}

/// What an entities reply selects.
pub open spec fn entities_of(text: Seq<char>) -> Option<EntitySet> {
    entity_selection(lower_of(trimmed(text)))
}

/// A field that ends at `i` starts at `start`, the position after the last
/// comma before `i`.
proof fn lemma_field_start(s: Seq<char>, start: int, a: int, i: int)
    requires
        0 <= start <= i <= s.len(),
        start == 0 || s[start - 1] == ',',
        forall|k: int| start <= k < i ==> s[k] != ',',
        is_field(s, a, i),
    ensures
        a == start,
{
    if a < start {
        assert(s[start - 1] != ',');
    } else if a > start {
        assert(s[a - 1] != ',');
    }
}

/// Moving past a position that holds no comma adds no field.
proof fn lemma_field_before_plain(s: Seq<char>, w: Seq<char>, i: int)
    requires
        0 <= i < s.len(),
        s[i] != ',',
    ensures
        field_before(s, w, i + 1) == field_before(s, w, i),
{
    if field_before(s, w, i + 1) {
        let (a, b) = choose|a: int, b: int|
            is_field(s, a, b) && b < i + 1 && trimmed(s.subrange(a, b)) == w;
        assert(b != i);
    }
}

/// Moving past a comma, or past the end, adds the field that ends there.
proof fn lemma_field_before_end(s: Seq<char>, w: Seq<char>, start: int, i: int)
    requires
        0 <= start <= i <= s.len(),
        i == s.len() || s[i] == ',',
        start == 0 || s[start - 1] == ',',
        forall|k: int| start <= k < i ==> s[k] != ',',
    ensures
        field_before(s, w, i + 1) == (field_before(s, w, i) || trimmed(s.subrange(start, i)) == w),
{
    if field_before(s, w, i + 1) {
        let (a, b) = choose|a: int, b: int|
            is_field(s, a, b) && b < i + 1 && trimmed(s.subrange(a, b)) == w;
        if b == i {
            lemma_field_start(s, start, a, i);
        }
    }
    if trimmed(s.subrange(start, i)) == w {
        assert(is_field(s, start, i));
    }
}

/// Selects entity kinds from a trimmed, lowercased entities reply.
pub fn select_entities(lowered: &str) -> (r: Option<EntitySet>)
    ensures
        r == entity_selection(lowered@),
{
    let set = if same_text(lowered, "all") {
        EntitySet::all()
    } else {
        let n = lowered.unicode_len();
        let ghost s = lowered@;
        let mut found = EntitySet { members: false, switches: false, systems: false, groups: false, messages: false };
        let mut start: usize = 0;
        let mut i: usize = 0;
        while i < n
            invariant
                n == s.len(),
                s == lowered@,
                start <= i <= n,
                start == 0 || s[start - 1] == ',',
                forall|k: int| start <= k < i ==> s[k] != ',',
                found.members == field_before(s, entity_name(Entity::Members), i as int),
                found.switches == field_before(s, entity_name(Entity::Switches), i as int),
                found.systems == field_before(s, entity_name(Entity::Systems), i as int),
                found.groups == field_before(s, entity_name(Entity::Groups), i as int),
                found.messages == field_before(s, entity_name(Entity::Messages), i as int),
            decreases n - i,
        {
            let c = lowered.get_char(i);
            if c == ',' {
                let field = trim(lowered.substring_char(start, i));
                found.add_word(field);
                proof {
                    lemma_field_before_end(s, entity_name(Entity::Members), start as int, i as int);
                    lemma_field_before_end(s, entity_name(Entity::Switches), start as int, i as int);
                    lemma_field_before_end(s, entity_name(Entity::Systems), start as int, i as int);
                    lemma_field_before_end(s, entity_name(Entity::Groups), start as int, i as int);
                    lemma_field_before_end(s, entity_name(Entity::Messages), start as int, i as int);
                }
                start = i + 1;
            } else {
                proof {
                    lemma_field_before_plain(s, entity_name(Entity::Members), i as int);
                    lemma_field_before_plain(s, entity_name(Entity::Switches), i as int);
                    lemma_field_before_plain(s, entity_name(Entity::Systems), i as int);
                    lemma_field_before_plain(s, entity_name(Entity::Groups), i as int);
                    lemma_field_before_plain(s, entity_name(Entity::Messages), i as int);
                }
            }
            i = i + 1;
        }
        let field = trim(lowered.substring_char(start, n));
        found.add_word(field);
        proof {
            lemma_field_before_end(s, entity_name(Entity::Members), start as int, n as int);
            lemma_field_before_end(s, entity_name(Entity::Switches), start as int, n as int);
            lemma_field_before_end(s, entity_name(Entity::Systems), start as int, n as int);
            lemma_field_before_end(s, entity_name(Entity::Groups), start as int, n as int);
            lemma_field_before_end(s, entity_name(Entity::Messages), start as int, n as int);
        }
        found
    };
    if set.is_empty() {
        None
    } else {
        Some(set)
    }
}

/// Selects entity kinds from an entities reply: it is trimmed and lowercased,
/// then read by `select_entities`.
pub fn parse_entities(text: &str) -> (r: Option<EntitySet>)
    ensures
        r == entities_of(text@),
{
    let lowered = lowercase(trim(text));
    select_entities(lowered.as_str())
}

/// Where a conversation stands. Steps only move forward, one at a time.
#[derive(Clone, Copy, Debug, PartialEq, Eq, Structural)]
pub enum SyncStep {
    Direction,
    Entities,
    FirstToken,
    SecondToken,
    Done,
}

impl SyncStep {
    /// The step that follows this one; `Done` is last.
    pub open spec fn successor(self) -> SyncStep {
        match self {
            SyncStep::Direction => SyncStep::Entities,
            SyncStep::Entities => SyncStep::FirstToken,
            SyncStep::FirstToken => SyncStep::SecondToken,
            SyncStep::SecondToken => SyncStep::Done,
            SyncStep::Done => SyncStep::Done,
        }
    }
}

/// One user's sync conversation.
#[derive(Clone, Debug)]
pub struct SyncConversation {
    step: SyncStep,
    direction: Option<Direction>,
    entities: Option<EntitySet>,
    pk_token: Option<String>,
    sp_token: Option<String>,
}

/// What a conversation holds, with its tokens as character sequences.
pub struct ConversationView {
    pub step: SyncStep,
    pub direction: Option<Direction>,
    pub entities: Option<EntitySet>,
    pub pk_token: Option<Seq<char>>,
    pub sp_token: Option<Seq<char>>,
}

/// The characters of an optional token.
pub open spec fn token_view(t: Option<String>) -> Option<Seq<char>> {
    match t {
        Some(s) => Some(s@),
        None => None,
    }
}

impl View for SyncConversation {
    type V = ConversationView;

    closed spec fn view(&self) -> ConversationView {
        ConversationView {
            step: self.step,
            direction: self.direction,
            entities: self.entities,
            pk_token: token_view(self.pk_token),
            sp_token: token_view(self.sp_token),
        }
    }
}

impl ConversationView {
    /// The token stored for platform `p`.
    pub open spec fn token(self, p: Platform) -> Option<Seq<char>> {
        match p {
            Platform::PluralKit => self.pk_token,
            Platform::SimplyPlural => self.sp_token,
        }
    }

    /// This conversation with `t` stored as the token of platform `p`.
    pub open spec fn with_token(self, p: Platform, t: Seq<char>) -> ConversationView {
        match p {
            Platform::PluralKit => ConversationView { pk_token: Some(t), ..self },
            Platform::SimplyPlural => ConversationView { sp_token: Some(t), ..self },
        }
    }

    /// The platform whose token is asked for first.
    pub open spec fn first(self) -> Platform {
        self.direction->0.first_platform()
    }

    /// What is stored is what the steps so far have collected, and nothing else:
    /// a direction from `Entities` on, a non-empty entity set from `FirstToken`
    /// on, the first platform's token from `SecondToken` on, both at `Done`.
    pub open spec fn wf(self) -> bool {
        &&& (self.step != SyncStep::Direction <==> self.direction is Some)
        &&& (self.step == SyncStep::Direction || self.step == SyncStep::Entities) <==> self.entities is None
        &&& (self.entities matches Some(es) ==> !es.is_empty_set())
        &&& (self.step == SyncStep::SecondToken || self.step == SyncStep::Done) <==> self.token(
            self.first(),
        ) is Some
        &&& (self.step == SyncStep::Done <==> self.token(self.first().other_platform()) is Some)
        &&& (self.step == SyncStep::Direction ==> self.pk_token is None && self.sp_token is None)
    }
}

/// The prompt for a direction.
pub open spec fn direction_prompt() -> Seq<char> {
    "Which direction do you want to sync?\nReply with one of: pk_to_plura, plura_to_pk, sp_to_plura, plura_to_sp"@
}

/// The prompt for entity kinds.
pub open spec fn entities_prompt() -> Seq<char> {
    "Which entities? Reply with a comma-separated list from the following:\nmembers, switches, systems, groups, messages\nOr reply with `all` to sync everything."@
}

/// The prompt after an entities reply that named no entity kind.
pub open spec fn entities_retry_prompt() -> Seq<char> {
    "Please reply with at least one valid entity from: members, switches, systems, groups, messages\nOr reply with `all`."@
}

/// The prompt for the token of platform `p`.
pub open spec fn token_prompt(p: Platform) -> Seq<char> {
    match p {
        Platform::PluralKit => "Please provide your PluralKit token."@,
        Platform::SimplyPlural => "Please provide your SimplyPlural token."@,
    }
}

/// The reply to a conversation that has already finished.
pub open spec fn already_done_message() -> Seq<char> {
    "Sync already completed. Run `/sync` again to start a new sync."@
}

/// `acc` with `name` appended to a comma-separated list when `present`.
pub open spec fn append_listed(acc: Seq<char>, present: bool, name: Seq<char>) -> Seq<char> {
    if !present {
        acc
    } else if acc.len() == 0 {
        name
    } else {
        acc + ", "@ + name
    }
}

/// The name of entity kind `e` in double quotes.
pub open spec fn quoted_entity_name(e: Entity) -> Seq<char> {
    match e {
        Entity::Members => "\"members\""@,
        Entity::Switches => "\"switches\""@,
        Entity::Systems => "\"systems\""@,
        Entity::Groups => "\"groups\""@,
        Entity::Messages => "\"messages\""@,
    }
}

/// The quoted names of the kinds in `es`, in the vocabulary's order,
/// separated by commas.
pub open spec fn entity_list(es: EntitySet) -> Seq<char> {
    let a = append_listed(Seq::empty(), es.members, quoted_entity_name(Entity::Members));
    let b = append_listed(a, es.switches, quoted_entity_name(Entity::Switches));
    let c = append_listed(b, es.systems, quoted_entity_name(Entity::Systems));
    let d = append_listed(c, es.groups, quoted_entity_name(Entity::Groups));
    append_listed(d, es.messages, quoted_entity_name(Entity::Messages))
}

/// The summary sent when a conversation finishes, in the debug form of what
/// was collected (`Some("pk_to_plura")`, `Some(["members"])`); it names no token.
pub open spec fn summary_text(d: Direction, es: EntitySet) -> Seq<char> {
    "Syncing!\nDirection: Some(\""@ + direction_name(d) + "\")\nEntities: Some(["@
        + entity_list(es) + "])\nPK Token: [hidden]\nSP Token: [hidden]"@
}

/// The conversation after one message with text `text`.
pub open spec fn next_conversation(c: ConversationView, text: Seq<char>) -> ConversationView {
    let t = trimmed(text);
    match c.step {
        SyncStep::Direction => match direction_of(t) {
            Some(d) => ConversationView { step: SyncStep::Entities, direction: Some(d), ..c },
            None => c,
        },
        SyncStep::Entities => match entities_of(text) {
            Some(es) => ConversationView { step: SyncStep::FirstToken, entities: Some(es), ..c },
            None => c,
        },
        SyncStep::FirstToken => if t.len() == 0 {
            c
        } else {
            ConversationView { step: SyncStep::SecondToken, ..c.with_token(c.first(), t) }
        },
        SyncStep::SecondToken => if t.len() == 0 {
            c
        } else {
            ConversationView {
                step: SyncStep::Done,
                ..c.with_token(c.first().other_platform(), t)
            }
        },
        SyncStep::Done => c,
    }
}

/// The reply to one message with text `text`.
pub open spec fn conversation_reply(c: ConversationView, text: Seq<char>) -> Seq<char> {
    let t = trimmed(text);
    match c.step {
        SyncStep::Direction => if direction_of(t) is Some {
            entities_prompt()
        } else {
            direction_prompt()
        },
        SyncStep::Entities => if entities_of(text) is Some {
            token_prompt(c.first())
        } else {
            entities_retry_prompt()
        },
        SyncStep::FirstToken => if t.len() == 0 {
            token_prompt(c.first())
        } else {
            token_prompt(c.first().other_platform())
        },
        SyncStep::SecondToken => if t.len() == 0 {
            token_prompt(c.first().other_platform())
        } else {
            summary_text(c.direction->0, c.entities->0)
        },
        SyncStep::Done => already_done_message(),
    }
}

/// Appends `name` to the comma-separated list in `acc` when `present`.
fn push_listed(acc: &mut String, present: bool, name: &str)
    ensures
        final(acc)@ == append_listed(old(acc)@, present, name@),
{
    if present {
        if acc.as_str().unicode_len() > 0 {
            acc.append(", ");
        }
        acc.append(name);
    }
}

/// The summary of a finished conversation.
pub fn summary(d: Direction, es: EntitySet) -> (r: String)
    ensures
        r@ == summary_text(d, es),
{
    let mut list = String::new();
    push_listed(&mut list, es.members, "\"members\"");
    push_listed(&mut list, es.switches, "\"switches\"");
    push_listed(&mut list, es.systems, "\"systems\"");
    push_listed(&mut list, es.groups, "\"groups\"");
    push_listed(&mut list, es.messages, "\"messages\"");
    let mut r = String::from_str("Syncing!\nDirection: Some(\"");
    r.append(d.name());
    r.append("\")\nEntities: Some([");
    r.append(list.as_str());
    r.append("])\nPK Token: [hidden]\nSP Token: [hidden]");
    r
}

/// The prompt for the token of platform `p`.
fn ask_token(p: Platform) -> (r: String)
    ensures
        r@ == token_prompt(p),
{
    match p {
        Platform::PluralKit => String::from_str("Please provide your PluralKit token."),
        Platform::SimplyPlural => String::from_str("Please provide your SimplyPlural token."),
    }
}

impl SyncConversation {
    /// A conversation at its first step, with nothing collected.
    pub fn new() -> (r: SyncConversation)
        ensures
            r@.step == SyncStep::Direction,
            r@.wf(),
            r@ == initial_conversation(),
    {
        SyncConversation {
            step: SyncStep::Direction,
            direction: None,
            entities: None,
            pk_token: None,
            sp_token: None,
        }
    }

    /// The step this conversation stands at.
    pub fn step(&self) -> (r: SyncStep)
        ensures
            r == self@.step,
    {
        self.step
    }

    /// The direction collected so far.
    pub fn direction(&self) -> (r: Option<Direction>)
        ensures
            r == self@.direction,
    {
        self.direction
    }

    /// The entity kinds collected so far.
    pub fn entities(&self) -> (r: Option<EntitySet>)
        ensures
            r == self@.entities,
    {
        self.entities
    }

    /// Stores `t` as the token of platform `p`.
    fn set_token(&mut self, p: Platform, t: String)
        ensures
            final(self)@ == old(self)@.with_token(p, t@),
    {
        match p {
            Platform::PluralKit => self.pk_token = Some(t),
            Platform::SimplyPlural => self.sp_token = Some(t),
        }
    }

    /// Takes one message of the conversation: moves it one step forward when
    /// the text is what the current step asks for, else leaves it as it is,
    /// and returns the reply.
    pub fn advance(&mut self, text: &str) -> (reply: String)
        requires
            old(self)@.wf(),
        ensures
            final(self)@ == next_conversation(old(self)@, text@),
            reply@ == conversation_reply(old(self)@, text@),
            final(self)@.wf(),
    {
        match self.step {
            SyncStep::Direction => match parse_direction(text) {
                Some(d) => {
                    self.direction = Some(d);
                    self.step = SyncStep::Entities;
                    String::from_str(
                        "Which entities? Reply with a comma-separated list from the following:\nmembers, switches, systems, groups, messages\nOr reply with `all` to sync everything.",
                    )
                },
                None => String::from_str(
                    "Which direction do you want to sync?\nReply with one of: pk_to_plura, plura_to_pk, sp_to_plura, plura_to_sp",
                ),
            },
            SyncStep::Entities => match parse_entities(text) {
                Some(es) => {
                    self.entities = Some(es);
                    self.step = SyncStep::FirstToken;
                    ask_token(self.direction.unwrap().first())
                },
                None => String::from_str(
                    "Please reply with at least one valid entity from: members, switches, systems, groups, messages\nOr reply with `all`.",
                ),
            },
            SyncStep::FirstToken => {
                let first = self.direction.unwrap().first();
                let t = trim(text);
                if t.unicode_len() == 0 {
                    ask_token(first)
                } else {
                    self.set_token(first, String::from_str(t));
                    self.step = SyncStep::SecondToken;
                    ask_token(first.other())
                }
            },
            SyncStep::SecondToken => {
                let d = self.direction.unwrap();
                let second = d.first().other();
                let t = trim(text);
                if t.unicode_len() == 0 {
                    ask_token(second)
                } else {
                    self.set_token(second, String::from_str(t));
                    self.step = SyncStep::Done;
                    summary(d, self.entities.unwrap())
                }
            },
            SyncStep::Done => String::from_str(
                "Sync already completed. Run `/sync` again to start a new sync.",
            ),
        }
    }
}

/// A conversation at its first step, with nothing collected.
pub open spec fn initial_conversation() -> ConversationView {
    ConversationView {
        step: SyncStep::Direction,
        direction: None,
        entities: None,
        pk_token: None,
        sp_token: None,
    }
}

/// The conversations in progress, one per user id. Access to it is meant to
/// be exclusive for the whole of one message's handling.
pub struct SyncConversations {
    entries: Vec<(String, SyncConversation)>,
}

/// Some entry of `s` has key `k`.
pub open spec fn has_key(s: Seq<(String, SyncConversation)>, k: Seq<char>) -> bool {
    exists|j: int| 0 <= j < s.len() && (#[trigger] s[j]).0@ == k
}

/// No two entries of `s` share a key.
pub open spec fn keys_unique(s: Seq<(String, SyncConversation)>) -> bool {
    forall|i: int, j: int|
        0 <= i < s.len() && 0 <= j < s.len() && (#[trigger] s[i]).0@ == (#[trigger] s[j]).0@
            ==> i == j
}

/// The conversations in `s`, by user id.
pub open spec fn entries_map(s: Seq<(String, SyncConversation)>) -> Map<
    Seq<char>,
    ConversationView,
> {
    Map::new(
        |k: Seq<char>| has_key(s, k),
        |k: Seq<char>| s[choose|j: int| 0 <= j < s.len() && (#[trigger] s[j]).0@ == k].1@,
    )
}

/// With unique keys, entry `i` is what the map holds for its key.
proof fn lemma_entry(s: Seq<(String, SyncConversation)>, i: int)
    requires
        keys_unique(s),
        0 <= i < s.len(),
    ensures
        entries_map(s).contains_key(s[i].0@),
        entries_map(s)[s[i].0@] == s[i].1@,
{
    assert(has_key(s, s[i].0@));
}

/// Removing entry `i` removes its key from the map.
proof fn lemma_remove_entry(s: Seq<(String, SyncConversation)>, i: int)
    requires
        keys_unique(s),
        0 <= i < s.len(),
    ensures
        keys_unique(s.remove(i)),
        entries_map(s.remove(i)) == entries_map(s).remove(s[i].0@),
{
    let r = s.remove(i);
    let k = s[i].0@;
    assert forall|a: int, b: int|
        0 <= a < r.len() && 0 <= b < r.len() && (#[trigger] r[a]).0@ == (#[trigger] r[b]).0@
            implies a == b by {
        let sa = if a < i { a } else { a + 1 };
        let sb = if b < i { b } else { b + 1 };
        assert(r[a] == s[sa]);
        assert(r[b] == s[sb]);
    }
    assert forall|q: Seq<char>| #[trigger]
        entries_map(r).contains_key(q) == entries_map(s).remove(k).contains_key(q) by {
        if has_key(r, q) {
            let a = choose|j: int| 0 <= j < r.len() && (#[trigger] r[j]).0@ == q;
            let sa = if a < i { a } else { a + 1 };
            assert(r[a] == s[sa]);
            assert(s[sa].0@ == q);
            assert(sa != i);
        }
        if has_key(s, q) && q != k {
            let a = choose|j: int| 0 <= j < s.len() && (#[trigger] s[j]).0@ == q;
            assert(a != i);
            let ra = if a < i { a } else { a - 1 };
            assert(r[ra] == s[a]);
            assert(has_key(r, q));
        }
    }
    assert forall|q: Seq<char>| #[trigger] entries_map(r).contains_key(q) implies entries_map(r)[q]
        == entries_map(s).remove(k)[q] by {
        let a = choose|j: int| 0 <= j < r.len() && (#[trigger] r[j]).0@ == q;
        let sa = if a < i { a } else { a + 1 };
        assert(r[a] == s[sa]);
        lemma_entry(r, a);
        lemma_entry(s, sa);
    }
    assert(entries_map(r) =~= entries_map(s).remove(k));
}

/// Adding an entry with a new key adds it to the map.
proof fn lemma_push_entry(s: Seq<(String, SyncConversation)>, e: (String, SyncConversation))
    requires
        keys_unique(s),
        !has_key(s, e.0@),
    ensures
        keys_unique(s.push(e)),
        entries_map(s.push(e)) == entries_map(s).insert(e.0@, e.1@),
{
    let r = s.push(e);
    assert forall|a: int, b: int|
        0 <= a < r.len() && 0 <= b < r.len() && (#[trigger] r[a]).0@ == (#[trigger] r[b]).0@
            implies a == b by {
        if a < s.len() {
            assert(r[a] == s[a]);
        }
        if b < s.len() {
            assert(r[b] == s[b]);
        }
    }
    assert forall|q: Seq<char>| #[trigger]
        entries_map(r).contains_key(q) == entries_map(s).insert(e.0@, e.1@).contains_key(q) by {
        if has_key(s, q) {
            let a = choose|j: int| 0 <= j < s.len() && (#[trigger] s[j]).0@ == q;
            assert(r[a] == s[a]);
        }
        if q == e.0@ {
            assert(r[s.len() as int] == e);
        }
        if has_key(r, q) {
            let a = choose|j: int| 0 <= j < r.len() && (#[trigger] r[j]).0@ == q;
            if a < s.len() {
                assert(r[a] == s[a]);
            }
        }
    }
    assert forall|q: Seq<char>| #[trigger] entries_map(r).contains_key(q) implies entries_map(r)[q]
        == entries_map(s).insert(e.0@, e.1@)[q] by {
        let a = choose|j: int| 0 <= j < r.len() && (#[trigger] r[j]).0@ == q;
        lemma_entry(r, a);
        if a < s.len() {
            assert(r[a] == s[a]);
            lemma_entry(s, a);
        }
    }
    assert(entries_map(r) =~= entries_map(s).insert(e.0@, e.1@));
}

impl View for SyncConversations {
    type V = Map<Seq<char>, ConversationView>;

    closed spec fn view(&self) -> Map<Seq<char>, ConversationView> {
        entries_map(self.entries@)
    }
}

/// The privacy reply sent when the sync command is used outside a direct channel.
pub open spec fn privacy_message() -> Seq<char> {
    "Please run `/sync` in a DM with me for your privacy."@
}

/// Whether a channel id names a direct, one-to-one channel: it starts with `D`.
pub open spec fn is_direct(channel_id: Seq<char>) -> bool {
    channel_id.len() > 0 && channel_id[0] == 'D'
}

/// The conversation a user has in `store`, or a new one.
pub open spec fn current_conversation(
    store: Map<Seq<char>, ConversationView>,
    user: Seq<char>,
) -> ConversationView {
    if store.contains_key(user) {
        store[user]
    } else {
        initial_conversation()
    }
}

impl SyncConversations {
    /// Every stored conversation is well formed and unfinished.
    pub closed spec fn wf(&self) -> bool {
        &&& keys_unique(self.entries@)
        &&& forall|j: int|
            0 <= j < self.entries.len() ==> (#[trigger] self.entries@[j]).1@.wf()
                && self.entries@[j].1@.step != SyncStep::Done
    }

    /// Every conversation in the store is well formed and unfinished: one
    /// that reaches `Done` leaves the store.
    pub proof fn stored_conversations_are_unfinished(&self, user: Seq<char>)
        requires
            self.wf(),
            self@.contains_key(user),
        ensures
            self@[user].wf(),
            self@[user].step != SyncStep::Done,
    {
        let s = self.entries@;
        let j = choose|j: int| 0 <= j < s.len() && (#[trigger] s[j]).0@ == user;
        lemma_entry(s, j);
    }

    /// An empty store.
    pub fn new() -> (r: SyncConversations)
        ensures
            r.wf(),
            r@ == Map::<Seq<char>, ConversationView>::empty(),
    {
        let r = SyncConversations { entries: Vec::new() };
        assert(r@ =~= Map::<Seq<char>, ConversationView>::empty());
        r
    }

    /// The number of conversations in progress.
    pub fn len(&self) -> (r: usize)
        requires
            self.wf(),
        ensures
            r == self@.len(),
    {
        proof {
            self.lemma_len();
        }
        self.entries.len()
    }

    proof fn lemma_len(&self)
        requires
            self.wf(),
        ensures
            self.entries.len() == self@.len(),
    {
        let s = self.entries@;
        let keys = Set::new(|k: Seq<char>| has_key(s, k));
        assert(self@.dom() =~= keys);
        let f = |j: int| s[j].0@;
        let range = vstd::set_lib::set_int_range(0, s.len() as int);
        vstd::set_lib::lemma_int_range(0, s.len() as int);
        assert(keys =~= range.map(f)) by {
            assert forall|k: Seq<char>| keys.contains(k) implies range.map(f).contains(k) by {
                let j = choose|j: int| 0 <= j < s.len() && (#[trigger] s[j]).0@ == k;
                assert(range.contains(j));
                assert(f(j) == k);
            }
            assert forall|k: Seq<char>| range.map(f).contains(k) implies keys.contains(k) by {
                let j = choose|j: int| range.contains(j) && f(j) == k;
                assert(s[j].0@ == k);
            }
        }
        assert(vstd::relations::injective_on(f, range)) by {
            assert forall|a: int, b: int|
                range.contains(a) && range.contains(b) && #[trigger] f(a) == #[trigger] f(b) implies a
                == b by {
                assert(s[a].0@ == s[b].0@);
            }
        }
        vstd::set_lib::lemma_map_size(range, keys, f);
    }

    /// Whether `user` has a conversation in progress.
    pub fn contains(&self, user: &str) -> (r: bool)
        requires
            self.wf(),
        ensures
            r == self@.contains_key(user@),
    {
        self.find(user).is_some()
    }

    /// The step that `user`'s conversation stands at, if it has one.
    pub fn step_of(&self, user: &str) -> (r: Option<SyncStep>)
        requires
            self.wf(),
        ensures
            r == (if self@.contains_key(user@) {
                Some(self@[user@].step)
            } else {
                None
            }),
    {
        match self.find(user) {
            Some(i) => {
                proof {
                    lemma_entry(self.entries@, i as int);
                }
                Some(self.entries[i].1.step())
            },
            None => None,
        }
    }

    /// `user`'s conversation in progress, if any.
    pub fn get(&self, user: &str) -> (r: Option<&SyncConversation>)
        requires
            self.wf(),
        ensures
            r is Some == self@.contains_key(user@),
            r matches Some(c) ==> c@ == self@[user@] && c@.wf() && c@.step != SyncStep::Done,
    {
        match self.find(user) {
            Some(i) => {
                proof {
                    lemma_entry(self.entries@, i as int);
                    self.stored_conversations_are_unfinished(user@);
                }
                Some(&self.entries[i].1)
            },
            None => None,
        }
    }

    /// The index of `user`'s entry.
    fn find(&self, user: &str) -> (r: Option<usize>)
        requires
            self.wf(),
        ensures
            r matches Some(i) ==> i < self.entries.len() && self.entries@[i as int].0@ == user@,
            r is None ==> !has_key(self.entries@, user@),
            r is Some == self@.contains_key(user@),
    {
        let mut i: usize = 0;
        while i < self.entries.len()
            invariant
                i <= self.entries.len(),
                forall|j: int| 0 <= j < i ==> (#[trigger] self.entries@[j]).0@ != user@,
            decreases self.entries.len() - i,
        {
            if same_text(self.entries[i].0.as_str(), user) {
                return Some(i);
            }
            i = i + 1;
        }
        None
    }
}

/// Handles one message of the sync command from `user_id` in `channel_id`.
/// Outside a direct channel it only returns the privacy reply. Otherwise it
/// takes the user's conversation (a new one if there is none), moves it on by
/// the text, keeps it if it is unfinished and drops it once finished, and
/// returns the reply.
pub fn handle_sync_command(
    user_id: &str,
    channel_id: &str,
    text: &str,
    conversations: &mut SyncConversations,
) -> (reply: String)
    requires
        old(conversations).wf(),
    ensures
        final(conversations).wf(),
        !is_direct(channel_id@) ==> final(conversations)@ == old(conversations)@ && reply@
            == privacy_message(),
        is_direct(channel_id@) ==> {
            let c = current_conversation(old(conversations)@, user_id@);
            let next = next_conversation(c, text@);
            &&& c.step != SyncStep::Done
            &&& reply@ == conversation_reply(c, text@)
            &&& final(conversations)@.contains_key(user_id@) == (next.step != SyncStep::Done)
            &&& final(conversations)@ == if next.step == SyncStep::Done {
                old(conversations)@.remove(user_id@)
            } else {
                old(conversations)@.insert(user_id@, next)
            }
        },
        forall|k: Seq<char>|
            k != user_id@ ==> (#[trigger] final(conversations)@.contains_key(k)
                == old(conversations)@.contains_key(k) && (old(conversations)@.contains_key(k)
                ==> final(conversations)@[k] == old(conversations)@[k])),
{
    if !is_direct_channel(channel_id) {
        return String::from_str("Please run `/sync` in a DM with me for your privacy.");
    }
    let ghost before = conversations@;
    let ghost old_entries = conversations.entries@;
    proof {
        if before.contains_key(user_id@) {
            conversations.stored_conversations_are_unfinished(user_id@);
        }
    }
    let mut convo = match conversations.find(user_id) {
        Some(i) => {
            proof {
                lemma_entry(conversations.entries@, i as int);
                lemma_remove_entry(conversations.entries@, i as int);
            }
            let (_, c) = conversations.entries.remove(i);
            proof {
                assert forall|j: int| 0 <= j < conversations.entries.len() implies (
                #[trigger] conversations.entries@[j]).1@.wf() && conversations.entries@[j].1@.step
                    != SyncStep::Done by {
                    let oj = if j < i { j } else { j + 1 };
                    assert(conversations.entries@[j] == old_entries[oj]);
                }
            }
            c
        },
        None => {
            assert(conversations@ =~= before.remove(user_id@));
            SyncConversation::new()
        },
    };
    assert(conversations@ == before.remove(user_id@));
    assert(!has_key(conversations.entries@, user_id@));
    let key = String::from_str(user_id);
    let reply = convo.advance(text);
    if convo.step() != SyncStep::Done {
        proof {
            lemma_push_entry(conversations.entries@, (key, convo));
            assert(before.remove(user_id@).insert(user_id@, convo@) =~= before.insert(
                user_id@,
                convo@,
            ));
        }
        let ghost mid = conversations.entries@;
        conversations.entries.push((key, convo));
        proof {
            assert forall|j: int| 0 <= j < conversations.entries.len() implies (
            #[trigger] conversations.entries@[j]).1@.wf() && conversations.entries@[j].1@.step
                != SyncStep::Done by {
                if j < mid.len() {
                    assert(conversations.entries@[j] == mid[j]);
                }
            }
        }
    }
    reply
}

/// Whether a channel id names a direct, one-to-one channel.
pub fn is_direct_channel(channel_id: &str) -> (r: bool)
    ensures
        r == is_direct(channel_id@),
{
    channel_id.unicode_len() > 0 && channel_id.get_char(0) == 'D'
}

/// A message moves a conversation forward by one step or leaves it where it
/// stands: never back, never past a step. Well-formedness is kept.
pub proof fn conversation_moves_one_step(c: ConversationView, text: Seq<char>)
    requires
        c.wf(),
    ensures
        next_conversation(c, text).step == c.step || next_conversation(c, text).step
            == c.step.successor(),
        next_conversation(c, text).wf(),
{
}

/// In the store, a message moves the sender's conversation one step forward
/// or leaves it where it stands; only a conversation at `SecondToken` can
/// finish and leave the store.
pub proof fn stored_conversation_moves_one_step(
    store: SyncConversations,
    user: Seq<char>,
    text: Seq<char>,
)
    requires
        store.wf(),
    ensures
        ({
            let c = current_conversation(store@, user);
            let next = next_conversation(c, text);
            &&& c.wf() && c.step != SyncStep::Done
            &&& next.step == c.step || next.step == c.step.successor()
            &&& next.step == c.step ==> next == c
            &&& next.step == SyncStep::Done ==> c.step == SyncStep::SecondToken && trimmed(
                text,
            ).len() > 0
        }),
{
    if store@.contains_key(user) {
        store.stored_conversations_are_unfinished(user);
    }
}

/// The entities a reply selects depend only on which words its fields hold
/// once trimmed and lowercased, not on their order, their case or repeats.
pub proof fn entities_depend_on_field_words(a: Seq<char>, b: Seq<char>)
    requires
        forall|w: Seq<char>|
            has_field(lower_of(trimmed(a)), w) == has_field(lower_of(trimmed(b)), w),
        (lower_of(trimmed(a)) == "all"@) == (lower_of(trimmed(b)) == "all"@),
    ensures
        entities_of(a) == entities_of(b),
{
    let la = lower_of(trimmed(a));
    let lb = lower_of(trimmed(b));
    assert(has_field(la, entity_name(Entity::Members)) == has_field(lb, entity_name(Entity::Members)));
    assert(has_field(la, entity_name(Entity::Switches)) == has_field(lb, entity_name(Entity::Switches)));
    assert(has_field(la, entity_name(Entity::Systems)) == has_field(lb, entity_name(Entity::Systems)));
    assert(has_field(la, entity_name(Entity::Groups)) == has_field(lb, entity_name(Entity::Groups)));
    assert(has_field(la, entity_name(Entity::Messages)) == has_field(lb, entity_name(Entity::Messages)));
}

/// The fields of `x,y` are `x` and `y`, when neither holds a comma.
proof fn lemma_two_fields(x: Seq<char>, y: Seq<char>, w: Seq<char>)
    requires
        forall|k: int| 0 <= k < x.len() ==> x[k] != ',',
        forall|k: int| 0 <= k < y.len() ==> y[k] != ',',
    ensures
        has_field(x + seq![','] + y, w) == (trimmed(x) == w || trimmed(y) == w),
{
    let s = x + seq![','] + y;
    let m = x.len() as int;
    assert(s[m] == ',');
    assert(s.subrange(0, m) =~= x);
    assert(s.subrange(m + 1, s.len() as int) =~= y);
    if has_field(s, w) {
        let (a, b) = choose|a: int, b: int|
            is_field(s, a, b) && b < s.len() + 1 && trimmed(s.subrange(a, b)) == w;
        if a <= m {
            if a > 0 {
                assert(s[a - 1] == x[a - 1]);
            }
            if b > m {
                assert(s[m] != ',');
            }
            if b < m {
                assert(s[b] == x[b]);
            }
            assert(a == 0 && b == m);
        } else {
            if a > m + 1 {
                assert(s[a - 1] == y[a - 1 - (m + 1)]);
            }
            if b < s.len() {
                assert(s[b] == y[b - (m + 1)]);
            }
            assert(a == m + 1 && b == s.len());
        }
    }
    if trimmed(x) == w {
        assert forall|k: int| 0 <= k < m implies s[k] != ',' by {
            assert(s[k] == x[k]);
        }
        assert(is_field(s, 0, m));
    }
    if trimmed(y) == w {
        assert forall|k: int| m + 1 <= k < s.len() implies s[k] != ',' by {
            assert(s[k] == y[k - (m + 1)]);
        }
        assert(is_field(s, m + 1, s.len() as int));
    }
}

/// Swapping the two fields of a lowercased reply selects the same entities.
pub proof fn entity_selection_ignores_order(x: Seq<char>, y: Seq<char>)
    requires
        forall|k: int| 0 <= k < x.len() ==> x[k] != ',',
        forall|k: int| 0 <= k < y.len() ==> y[k] != ',',
    ensures
        entity_selection(x + seq![','] + y) == entity_selection(y + seq![','] + x),
{
    let a = x + seq![','] + y;
    let b = y + seq![','] + x;
    assert(a[x.len() as int] == ',');
    assert(b[y.len() as int] == ',');
    assert(a != "all"@ && b != "all"@) by {
        reveal_strlit("all");
        let all = "all"@;
        assert(all =~= seq!['a', 'l', 'l']);
        assert(forall|i: int| 0 <= i < all.len() ==> all[i] != ',');
    }
    assert forall|w: Seq<char>| has_field(a, w) == has_field(b, w) by {
        lemma_two_fields(x, y, w);
        lemma_two_fields(y, x, w);
    }
    assert(listed_entities(a) == listed_entities(b)) by {
        assert(has_field(a, entity_name(Entity::Members)) == has_field(b, entity_name(Entity::Members)));
        assert(has_field(a, entity_name(Entity::Switches)) == has_field(b, entity_name(Entity::Switches)));
        assert(has_field(a, entity_name(Entity::Systems)) == has_field(b, entity_name(Entity::Systems)));
        assert(has_field(a, entity_name(Entity::Groups)) == has_field(b, entity_name(Entity::Groups)));
        assert(has_field(a, entity_name(Entity::Messages)) == has_field(b, entity_name(Entity::Messages)));
    }
}

/// `all` selects every one of the five entity kinds.
pub proof fn all_selects_every_entity(text: Seq<char>)
    requires
        lower_of(trimmed(text)) == "all"@,
    ensures
        entities_of(text) == Some(EntitySet::full()),
        EntitySet::full()@ == Set::<Entity>::full(),
{
    assert(EntitySet::full()@ =~= Set::<Entity>::full());
}

} // verus!
