//! Inbox messages: what they are, how they are classified, and how a long
//! list of them is condensed.

use vstd::prelude::*;
use vstd::string::*;

use std::collections::hash_map::DefaultHasher;
use std::hash::{Hash, Hasher};

use crate::clock;
use crate::clock::{now_unix, Duration};
use crate::order;
use crate::order::order_by;
use crate::paths;
use crate::paths::joined;
use crate::text;
use crate::text::{
    ascii_lower, begins, chars_of, copy, digit, find_from, has, join_strings, same, split_words,
    string_of, string_of_all, trimmed,
};

verus! {

/// Type of inbox message.
#[derive(Clone, Copy, Debug, PartialEq, Eq, Structural)]
pub enum MessageType {
    Send,
    Assign,
}

/// A message in a member's inbox.
#[derive(Clone, Debug)]
pub struct InboxMessage {
    /// Unique within the inbox; empty until the message is stored.
    pub id: String,
    /// Sender name.
    pub from: String,
    /// Recipient name.
    pub to: String,
    /// Message text.
    pub body: String,
    pub msg_type: MessageType,
    /// Seconds since the epoch.
    pub timestamp: u64,
}

/// What a purge removed.
#[derive(Clone, Copy, Debug, PartialEq, Eq, Structural)]
pub struct InboxPurgeSummary {
    pub roles: usize,
    pub messages: usize,
}

/// A copy of a message.
pub fn clone_message(m: &InboxMessage) -> (r: InboxMessage)
    ensures
        r == *m,
{
    InboxMessage {
        id: m.id.clone(),
        from: m.from.clone(),
        to: m.to.clone(),
        body: m.body.clone(),
        msg_type: m.msg_type,
        timestamp: m.timestamp,
    }
}

impl InboxMessage {
    /// A message that is not stored yet.
    pub open spec fn is_new(
        self,
        from: Seq<char>,
        to: Seq<char>,
        body: Seq<char>,
        msg_type: MessageType,
    ) -> bool {
        &&& self.id@.len() == 0
        &&& self.from@ == from
        &&& self.to@ == to
        &&& self.body@ == body
        &&& self.msg_type == msg_type
    }

    /// A message with the given time.
    pub fn new_at(from: &str, to: &str, body: &str, msg_type: MessageType, timestamp: u64) -> (r:
        InboxMessage)
        ensures
            r.is_new(from@, to@, body@, msg_type),
            r.timestamp == timestamp,
    {
        InboxMessage {
            id: String::new(),
            from: copy(from),
            to: copy(to),
            body: copy(body),
            msg_type,
            timestamp,
        }
    }

    /// A new send-type message, dated by the clock.
    pub fn new_send(from: &str, to: &str, body: &str) -> (r: InboxMessage)
        ensures
            r.is_new(from@, to@, body@, MessageType::Send),
    {
        InboxMessage::new_at(from, to, body, MessageType::Send, now_unix())
    }

    /// A new assign-type message, dated by the clock.
    pub fn new_assign(from: &str, to: &str, task: &str) -> (r: InboxMessage)
        ensures
            r.is_new(from@, to@, task@, MessageType::Assign),
    {
        InboxMessage::new_at(from, to, task, MessageType::Assign, now_unix())
    }

    /// How long the message has been in the inbox at time `now`: whole
    /// seconds, none where the message is dated later.
    pub fn age_at(&self, now: u64) -> (r: Duration)
        ensures
            r == (Duration { secs: clock::seconds_since(self.timestamp, now), nanos: 0 }),
    {
        Duration::from_secs(now.saturating_sub(self.timestamp))
    }

    /// How long the message has been in the inbox, by the clock.
    pub fn age(&self) -> (r: Duration)
        ensures
            exists|now: u64|
                r == (Duration {
                    secs: #[trigger] clock::seconds_since(self.timestamp, now),
                    nanos: 0,
                }),
    {
        let now: u64 = now_unix();
        let r: Duration = self.age_at(now);
        assert(r.secs == clock::seconds_since(self.timestamp, now));
        r
    }
}

/// `<root>/.batty/inboxes`.
pub open spec fn inboxes_root_path(project_root: Seq<char>) -> Seq<char> {
    paths::join_path(paths::batty_dir(project_root), "inboxes"@)
}

/// The directory that holds all inboxes: `.batty/inboxes`.
pub fn inboxes_root(project_root: &str) -> (r: String)
    ensures
        r@ == inboxes_root_path(project_root@),
{
    joined(joined(project_root, ".batty").as_str(), "inboxes")
}

// ---------------------------------------------------------------------------
// Signatures

/// What std's `Hash` for `str` writes into a hasher.
pub uninterp spec fn hash_writes(s: Seq<char>) -> Seq<Seq<u8>>;

/// Feeds `s` to the hasher with std's `Hash` for `str`. The contract says
/// that what is written depends on the text alone and comes after what was
/// written before.
#[verifier::external_body]
fn hash_text(s: &str, state: &mut DefaultHasher)
    ensures
        final(state)@ == old(state)@ + hash_writes(s@),
{
    s.hash(state);
}

/// The text that a signature is taken of: the words of the body, one space
/// between each two, cut after two hundred characters.
pub open spec fn signature_text(body: Seq<char>) -> Seq<char> {
    text::first_chars(text::join(text::words(body), " "@), 200)
}

/// The signature of a body.
pub open spec fn signature(body: Seq<char>) -> u64 {
    <DefaultHasher as vstd::std_specs::hash::DefaultHasherAdditionalSpecFns>::spec_finish(
        hash_writes(signature_text(body)),
    )
}

/// A stable signature for the detection of duplicates. Bodies that differ in
/// white space only have the same one.
pub fn message_signature(body: &str) -> (r: u64)
    ensures
        r == signature(body@),
{
    let words: Vec<String> = split_words(&chars_of(body));
    let normalized: Vec<char> = chars_of(join_strings(&words, " ").as_str());
    let n: usize = normalized.len();
    let preview: String = if n <= 200 {
        string_of_all(&normalized)
    } else {
        string_of(&normalized, 0, 200)
    };
    assert(preview@ == signature_text(body@)) by {
        if n > 200 {
            assert(normalized@.subrange(0, 200) == normalized@.take(200));
        }
    }
    let mut hasher: DefaultHasher = DefaultHasher::new();
    hash_text(preview.as_str(), &mut hasher);
    assert(hasher@ == hash_writes(signature_text(body@)));
    hasher.finish()
}

/// Bodies with the same words have the same signature.
pub proof fn law_signature_ignores_white_space(a: Seq<char>, b: Seq<char>)
    requires
        text::words(a) == text::words(b),
    ensures
        signature(a) == signature(b),
{
}

// ---------------------------------------------------------------------------
// Classification

/// Category of an inbox message, the most urgent first.
#[derive(Clone, Copy, Debug, PartialEq, Eq, PartialOrd, Ord, Hash, Structural)]
pub enum MessageCategory {
    /// Always shown by itself.
    Escalation,
    ReviewRequest,
    Blocker,
    /// Status update for a task.
    Status,
    /// Idle or review nudge.
    Nudge,
}

/// How urgent a category is, the most urgent being zero.
pub open spec fn category_rank(c: MessageCategory) -> u64 {
    match c {
        MessageCategory::Escalation => 0,
        MessageCategory::ReviewRequest => 1,
        MessageCategory::Blocker => 2,
        MessageCategory::Status => 3,
        MessageCategory::Nudge => 4,
    }
}

fn rank_of(c: MessageCategory) -> (r: u64)
    ensures
        r == category_rank(c),
{
    match c {
        MessageCategory::Escalation => 0,
        MessageCategory::ReviewRequest => 1,
        MessageCategory::Blocker => 2,
        MessageCategory::Status => 3,
        MessageCategory::Nudge => 4,
    }
}

/// The body as it is searched: trimmed and in lower case.
pub open spec fn folded(body: Seq<char>) -> Seq<char> {
    text::lower(text::trim(body))
}

/// A folded body that nudges.
pub open spec fn is_nudge(b: Seq<char>) -> bool {
    ||| text::contains(b, "idle nudge:"@)
    ||| text::starts_with(b, "review nudge:"@)
    ||| text::contains(b, "if you are idle, take action now"@)
    ||| text::contains(b, "you have been idle past your configured timeout"@)
}

/// A folded body that reports a blocker.
pub open spec fn is_blocker(b: Seq<char>) -> bool {
    ||| text::contains(b, "blocked on"@)
    ||| text::contains(b, "blocker:"@)
    ||| text::starts_with(b, "blocked:"@)
}

/// A folded body that asks for a review.
pub open spec fn is_review_request(b: Seq<char>) -> bool {
    ||| text::contains(b, "ready for review"@)
    ||| text::contains(b, "awaiting manual review"@)
    ||| text::contains(b, "requires manual review"@)
    ||| text::contains(b, "review request"@)
    ||| text::contains(b, "ready_for_review"@)
    ||| text::starts_with(b, "review:"@)
}

/// The category of a body: the first that applies of escalation, nudge,
/// blocker and review request; any other body is a status.
pub open spec fn category_of(body: Seq<char>) -> MessageCategory {
    let b = folded(body);
    if text::contains(b, "escalat"@) {
        MessageCategory::Escalation
    } else if is_nudge(b) {
        MessageCategory::Nudge
    } else if is_blocker(b) {
        MessageCategory::Blocker
    } else if is_review_request(b) {
        MessageCategory::ReviewRequest
    } else {
        MessageCategory::Status
    }
}

/// Classifies a message by its body.
pub fn classify_message(msg: &InboxMessage) -> (r: MessageCategory)
    ensures
        r == category_of(msg.body@),
{
    let b: Vec<char> = ascii_lower(&trimmed(&chars_of(msg.body.as_str())));
    if has(&b, "escalat") {
        return MessageCategory::Escalation;
    }
    // Nudges may mention blockers in their instructions, so they come first.
    if has(&b, "idle nudge:") || begins(&b, "review nudge:") || has(
        &b,
        "if you are idle, take action now",
    ) || has(&b, "you have been idle past your configured timeout") {
        return MessageCategory::Nudge;
    }
    if has(&b, "blocked on") || has(&b, "blocker:") || begins(&b, "blocked:") {
        return MessageCategory::Blocker;
    }
    if has(&b, "ready for review") || has(&b, "awaiting manual review") || has(
        &b,
        "requires manual review",
    ) || has(&b, "review request") || has(&b, "ready_for_review") || begins(&b, "review:") {
        return MessageCategory::ReviewRequest;
    }
    MessageCategory::Status
}

/// The end of the run of digits that begins at `i`.
pub open spec fn digits_end(s: Seq<char>, i: int) -> int
    decreases s.len() - i,
{
    if 0 <= i < s.len() && text::is_digit(s[i]) {
        digits_end(s, i + 1)
    } else {
        i
    }
}

/// The position of the first digit at or after `i`, or the end.
pub open spec fn first_digit(s: Seq<char>, i: int) -> int
    decreases s.len() - i,
{
    if 0 <= i < s.len() && !text::is_digit(s[i]) {
        first_digit(s, i + 1)
    } else {
        i
    }
}

/// The run of digits that begins at `i`, where there is one.
pub open spec fn digits_at(s: Seq<char>, i: int) -> Option<Seq<char>> {
    let e = digits_end(s, i);
    if i < e {
        Some(s.subrange(i, e))
    } else {
        None
    }
}

/// The first position of `needle` in `s`.
pub open spec fn first_of(s: Seq<char>, needle: Seq<char>) -> Option<int> {
    if text::contains(s, needle) {
        Some(choose|i: int| text::is_first_match(s, needle, 0, i))
    } else {
        None
    }
}

/// The position of the first `#` at or after `i` that a digit follows.
pub open spec fn first_reference(s: Seq<char>, i: int) -> Option<int>
    decreases s.len() - i,
{
    if i < 0 || i >= s.len() {
        None
    } else if s[i] == '#' && digits_at(s, i + 1) is Some {
        Some(i)
    } else {
        first_reference(s, i + 1)
    }
}

/// The task that a body refers to: the digits behind the first `#` that a
/// digit follows, else the first digits behind its first `task_id` in any
/// case.
pub open spec fn task_id_of(body: Seq<char>) -> Option<Seq<char>> {
    match first_reference(body, 0) {
        Some(i) => digits_at(body, i + 1),
        None => match first_of(text::lower(body), "task_id"@) {
            Some(i) => digits_at(body, first_digit(body, i + 7)),
            None => None,
        },
    }
}

proof fn lemma_first_of(s: Seq<char>, needle: Seq<char>, i: int)
    requires
        text::is_first_match(s, needle, 0, i),
    ensures
        first_of(s, needle) == Some(i),
{
    assert(text::matches_at(s, needle, i));
    let c = choose|c: int| text::is_first_match(s, needle, 0, c);
    assert(text::is_first_match(s, needle, 0, c));
    if c < i {
        assert(!text::matches_at(s, needle, c));
    } else if i < c {
        assert(!text::matches_at(s, needle, i));
    }
}

proof fn lemma_first_of_none(s: Seq<char>, needle: Seq<char>)
    requires
        forall|j: int| 0 <= j ==> !text::matches_at(s, needle, j),
    ensures
        first_of(s, needle) is None,
{
    assert forall|i: int| !text::matches_at(s, needle, i) by {
        if i < 0 {
        }
    }
}

fn read_digits(s: &Vec<char>, from: usize) -> (r: Option<String>)
    requires
        from <= s@.len(),
    ensures
        paths::opt_view(r) == digits_at(s@, from as int),
{
    let mut i: usize = from;
    while i < s.len() && digit(s[i])
        invariant
            from <= i <= s@.len(),
            digits_end(s@, from as int) == digits_end(s@, i as int),
        decreases s@.len() - i,
    {
        i += 1;
    }
    if i == from {
        None
    } else {
        Some(string_of(s, from, i))
    }
}

/// Extracts the reference to a task from a body: `#42`, `Task #42` or
/// `task_id: 42`.
pub fn extract_task_id(body: &str) -> (r: Option<String>)
    ensures
        paths::opt_view(r) == task_id_of(body@),
{
    let s: Vec<char> = chars_of(body);
    proof {
        reveal_strlit("task_id");
    }
    let mut at: usize = 0;
    while at < s.len()
        invariant
            at <= s@.len(),
            s@ == body@,
            first_reference(s@, 0) == first_reference(s@, at as int),
        decreases s@.len() - at,
    {
        if s[at] == '#' {
            let found: Option<String> = read_digits(&s, at + 1);
            if found.is_some() {
                return found;
            }
        }
        at += 1;
    }
    let low: Vec<char> = ascii_lower(&s);
    let needle: Vec<char> = chars_of("task_id");
    match find_from(&low, &needle, 0) {
        Some(i) => {
            proof {
                lemma_first_of(low@, "task_id"@, i as int);
            }
            let n: usize = low.len();
            assert("task_id"@.len() == 7);
            assert(i + 7 <= n);
            let mut k: usize = i + 7;
            while k < s.len() && !digit(s[k])
                invariant
                    i + 7 <= k <= s@.len(),
                    first_digit(s@, i + 7) == first_digit(s@, k as int),
                decreases s@.len() - k,
            {
                k += 1;
            }
            read_digits(&s, k)
        },
        None => {
            proof {
                lemma_first_of_none(low@, "task_id"@);
            }
            None
        },
    }
}

// ---------------------------------------------------------------------------
// Digest

/// A single entry in the digested inbox view.
#[derive(Debug)]
pub struct DigestEntry {
    /// The representative message, the latest of its group.
    pub message: InboxMessage,
    /// Whether the representative message was delivered.
    pub delivered: bool,
    pub category: MessageCategory,
    /// How many messages this entry stands for.
    pub collapsed_count: usize,
}

/// A message with whether it was delivered.
pub type Listed = (InboxMessage, bool);

/// Two messages are told in one entry: nudges of one sender, and status
/// updates on one task, or of one sender where they name no task. Any other
/// message stands by itself.
pub open spec fn same_group(ms: Seq<Listed>, i: int, j: int) -> bool {
    let a = ms[i].0;
    let b = ms[j].0;
    &&& category_of(a.body@) == category_of(b.body@)
    &&& match category_of(a.body@) {
        MessageCategory::Nudge => a.from@ == b.from@,
        MessageCategory::Status => task_id_of(a.body@) == task_id_of(b.body@) && (task_id_of(
            a.body@,
        ) is None ==> a.from@ == b.from@),
        _ => i == j,
    }
}

/// Message `j` is later than message `i`: by its time, or by its place where
/// the times are equal.
pub open spec fn is_later(ms: Seq<Listed>, j: int, i: int) -> bool {
    ms[j].0.timestamp > ms[i].0.timestamp || (ms[j].0.timestamp == ms[i].0.timestamp && j > i)
}

/// Message `i` is the latest of its group.
pub open spec fn is_latest(ms: Seq<Listed>, i: int) -> bool {
    forall|j: int|
        0 <= j < ms.len() && #[trigger] same_group(ms, i, j) ==> !is_later(ms, j, i)
}

/// The number of messages among the first `upto` that share a group with
/// message `i`.
pub open spec fn group_size(ms: Seq<Listed>, i: int, upto: int) -> nat
    decreases upto,
{
    if upto <= 0 {
        0
    } else {
        group_size(ms, i, upto - 1) + (if same_group(ms, i, upto - 1) {
            1nat
        } else {
            0
        })
    }
}

/// The latest messages of their groups, by position, among the first `upto`.
pub open spec fn latest_positions(ms: Seq<Listed>, upto: int) -> Seq<usize>
    decreases upto,
{
    if upto <= 0 {
        Seq::empty()
    } else if is_latest(ms, upto - 1) {
        latest_positions(ms, upto - 1).push((upto - 1) as usize)
    } else {
        latest_positions(ms, upto - 1)
    }
}

/// What an entry is sorted by: its category, then its time, newest first.
pub open spec fn digest_key(m: InboxMessage) -> (u64, u64) {
    (category_rank(category_of(m.body@)), (u64::MAX - m.timestamp) as u64)
}

/// The keys of messages.
pub open spec fn digest_keys(ms: Seq<Listed>, positions: Seq<usize>) -> Seq<(u64, u64)> {
    Seq::new(positions.len(), |k: int| digest_key(ms[positions[k] as int].0))
}

/// The positions of the entries of a digest, in order.
pub open spec fn digest_positions(ms: Seq<Listed>) -> Seq<usize> {
    let latest = latest_positions(ms, ms.len() as int);
    order::pick(latest, order::stable_order(digest_keys(ms, latest)))
}

/// The entry that message `i` represents.
pub open spec fn is_entry(ms: Seq<Listed>, i: int, e: DigestEntry) -> bool {
    &&& e.message == ms[i].0
    &&& e.delivered == ms[i].1
    &&& e.category == category_of(ms[i].0.body@)
    &&& e.collapsed_count == group_size(ms, i, ms.len() as int)
}

/// What grouping looks at in a message.
struct GroupKey {
    category: MessageCategory,
    task: Option<String>,
}

/// The keys describe the messages.
spec fn describes(ms: Seq<Listed>, keys: Seq<GroupKey>) -> bool {
    &&& keys.len() == ms.len()
    &&& forall|i: int|
        0 <= i < keys.len() ==> (#[trigger] keys[i]).category == category_of(ms[i].0.body@)
            && paths::opt_view(keys[i].task) == task_id_of(ms[i].0.body@)
}

fn group_keys(ms: &Vec<Listed>) -> (r: Vec<GroupKey>)
    ensures
        describes(ms@, r@),
{
    let mut out: Vec<GroupKey> = Vec::new();
    let mut i: usize = 0;
    while i < ms.len()
        invariant
            i <= ms@.len(),
            out@.len() == i,
            forall|k: int|
                0 <= k < out@.len() ==> (#[trigger] out@[k]).category == category_of(
                    ms@[k].0.body@,
                ) && paths::opt_view(out@[k].task) == task_id_of(ms@[k].0.body@),
        decreases ms@.len() - i,
    {
        let category: MessageCategory = classify_message(&ms[i].0);
        let task: Option<String> = extract_task_id(ms[i].0.body.as_str());
        out.push(GroupKey { category, task });
        i += 1;
    }
    out
}

fn share_group(ms: &Vec<Listed>, keys: &Vec<GroupKey>, i: usize, j: usize) -> (r: bool)
    requires
        describes(ms@, keys@),
        i < ms@.len(),
        j < ms@.len(),
    ensures
        r == same_group(ms@, i as int, j as int),
{
    let a: &GroupKey = &keys[i];
    let b: &GroupKey = &keys[j];
    if a.category != b.category {
        return false;
    }
    match a.category {
        MessageCategory::Nudge => same(ms[i].0.from.as_str(), ms[j].0.from.as_str()),
        MessageCategory::Status => match (&a.task, &b.task) {
            (Some(x), Some(y)) => same(x.as_str(), y.as_str()),
            (None, None) => same(ms[i].0.from.as_str(), ms[j].0.from.as_str()),
            _ => false,
        },
        _ => i == j,
    }
}

/// Whether message `i` is the latest of its group, and how large that is.
fn survey_group(ms: &Vec<Listed>, keys: &Vec<GroupKey>, i: usize) -> (r: (bool, usize))
    requires
        describes(ms@, keys@),
        i < ms@.len(),
    ensures
        r.0 == is_latest(ms@, i as int),
        r.1 == group_size(ms@, i as int, ms@.len() as int),
{
    let mut latest: bool = true;
    let mut count: usize = 0;
    let mut j: usize = 0;
    while j < ms.len()
        invariant
            j <= ms@.len(),
            i < ms@.len(),
            describes(ms@, keys@),
            count <= j,
            count == group_size(ms@, i as int, j as int),
            latest == forall|k: int|
                0 <= k < j && #[trigger] same_group(ms@, i as int, k) ==> !is_later(
                    ms@,
                    k,
                    i as int,
                ),
        decreases ms@.len() - j,
    {
        if share_group(ms, keys, i, j) {
            count += 1;
            let a: u64 = ms[i].0.timestamp;
            let b: u64 = ms[j].0.timestamp;
            if b > a || (b == a && j > i) {
                assert(same_group(ms@, i as int, j as int) && is_later(ms@, j as int, i as int));
                latest = false;
            }
        }
        j += 1;
    }
    (latest, count)
}

/// Condenses a list of messages: nudges per sender and status updates per
/// task collapse to the latest, and the entries come in order of urgency,
/// newest first. Entries of one category and one time come in the order of
/// the list. The second result is the number of messages.
pub fn digest_messages(messages: &Vec<Listed>) -> (r: (Vec<DigestEntry>, usize))
    ensures
        r.1 == messages@.len(),
        r.0@.len() == digest_positions(messages@).len(),
        forall|k: int|
            0 <= k < r.0@.len() ==> is_entry(
                messages@,
                digest_positions(messages@)[k] as int,
                #[trigger] r.0@[k],
            ),
{
    let raw_count: usize = messages.len();
    let group_info: Vec<GroupKey> = group_keys(messages);
    let mut latest: Vec<usize> = Vec::new();
    let mut counts: Vec<usize> = Vec::new();
    let mut sort_keys: Vec<(u64, u64)> = Vec::new();
    let mut i: usize = 0;
    while i < messages.len()
        invariant
            i <= messages@.len(),
            describes(messages@, group_info@),
            latest@ == latest_positions(messages@, i as int),
            counts@.len() == latest@.len(),
            sort_keys@ == digest_keys(messages@, latest@),
            forall|k: int|
                0 <= k < latest@.len() ==> (#[trigger] latest@[k]) < i && counts@[k] == group_size(
                    messages@,
                    latest@[k] as int,
                    messages@.len() as int,
                ),
        decreases messages@.len() - i,
    {
        let (is_last, count) = survey_group(messages, &group_info, i);
        if is_last {
            let ghost before = latest@;
            latest.push(i);
            counts.push(count);
            let m: &InboxMessage = &messages[i].0;
            sort_keys.push((rank_of(group_info[i].category), u64::MAX - m.timestamp));
            assert(digest_keys(messages@, latest@) == digest_keys(messages@, before).push(
                digest_key(messages@[i as int].0),
            ));
        }
        i += 1;
    }
    let sorted: Vec<usize> = order_by(&sort_keys);
    let mut entries: Vec<DigestEntry> = Vec::new();
    let mut k: usize = 0;
    while k < sorted.len()
        invariant
            k <= sorted@.len(),
            describes(messages@, group_info@),
            latest@ == latest_positions(messages@, messages@.len() as int),
            counts@.len() == latest@.len(),
            sort_keys@ == digest_keys(messages@, latest@),
            sorted@ == order::stable_order(sort_keys@),
            forall|j: int| 0 <= j < sorted@.len() ==> (#[trigger] sorted@[j]) < latest@.len(),
            forall|j: int|
                0 <= j < latest@.len() ==> (#[trigger] latest@[j]) < messages@.len() && counts@[j]
                    == group_size(messages@, latest@[j] as int, messages@.len() as int),
            entries@.len() == k,
            forall|j: int|
                0 <= j < entries@.len() ==> is_entry(
                    messages@,
                    digest_positions(messages@)[j] as int,
                    #[trigger] entries@[j],
                ),
        decreases sorted@.len() - k,
    {
        let p: usize = sorted[k];
        let at: usize = latest[p];
        assert(digest_positions(messages@)[k as int] == at);
        entries.push(
            DigestEntry {
                message: clone_message(&messages[at].0),
                delivered: messages[at].1,
                category: group_info[at].category,
                collapsed_count: counts[p],
            },
        );
        k += 1;
    }
    (entries, raw_count)
}

// ---------------------------------------------------------------------------
// Laws of the digest

/// Sharing a group is an equivalence.
pub proof fn law_groups_are_equivalence_classes(ms: Seq<Listed>, i: int, j: int, k: int)
    ensures
        same_group(ms, i, i),
        same_group(ms, i, j) ==> same_group(ms, j, i),
        same_group(ms, i, j) && same_group(ms, j, k) ==> same_group(ms, i, k),
{
}

proof fn lemma_latest_positions(ms: Seq<Listed>, upto: int)
    requires
        0 <= upto <= ms.len(),
        ms.len() <= usize::MAX,
    ensures
        latest_positions(ms, upto).no_duplicates(),
        forall|k: int|
            0 <= k < latest_positions(ms, upto).len() ==> (#[trigger] latest_positions(
                ms,
                upto,
            )[k]) < upto && is_latest(ms, latest_positions(ms, upto)[k] as int),
        forall|i: usize|
            i < upto && is_latest(ms, i as int) ==> #[trigger] latest_positions(
                ms,
                upto,
            ).contains(i),
    decreases upto,
{
    if upto > 0 {
        lemma_latest_positions(ms, upto - 1);
        let before = latest_positions(ms, upto - 1);
        let after = latest_positions(ms, upto);
        assert forall|i: usize| i < upto && is_latest(ms, i as int) implies #[trigger] after.contains(
            i,
        ) by {
            if i < upto - 1 {
                assert(before.contains(i));
                let k = choose|k: int| 0 <= k < before.len() && before[k] == i;
                assert(after[k] == i);
            } else {
                assert(after[after.len() - 1] == i);
            }
        }
        if is_latest(ms, upto - 1) {
            assert forall|a: int, b: int|
                0 <= a < after.len() && 0 <= b < after.len() && a != b implies after[a]
                != after[b] by {
                if a < before.len() {
                    assert(before[a] < upto - 1);
                }
                if b < before.len() {
                    assert(before[b] < upto - 1);
                }
            }
        }
    }
}

/// The latest message of the group of `i` among the first `upto`.
spec fn latest_in_group(ms: Seq<Listed>, i: int, upto: int) -> int
    decreases upto,
{
    if upto <= 0 {
        i
    } else {
        let before = latest_in_group(ms, i, upto - 1);
        if same_group(ms, i, upto - 1) && is_later(ms, upto - 1, before) {
            upto - 1
        } else {
            before
        }
    }
}

proof fn lemma_latest_in_group(ms: Seq<Listed>, i: int, upto: int)
    requires
        0 <= i < ms.len(),
        0 <= upto <= ms.len(),
    ensures
        0 <= latest_in_group(ms, i, upto) < ms.len(),
        same_group(ms, i, latest_in_group(ms, i, upto)),
        forall|j: int|
            0 <= j < upto && #[trigger] same_group(ms, i, j) ==> !is_later(
                ms,
                j,
                latest_in_group(ms, i, upto),
            ),
    decreases upto,
{
    if upto > 0 {
        lemma_latest_in_group(ms, i, upto - 1);
    }
}

/// Every message is told by exactly one entry: its group has a latest
/// message, and only one.
pub proof fn law_every_group_has_one_latest(ms: Seq<Listed>, i: int)
    requires
        0 <= i < ms.len(),
    ensures
        exists|j: int| 0 <= j < ms.len() && #[trigger] same_group(ms, i, j) && is_latest(ms, j),
        forall|j: int, k: int|
            0 <= j < ms.len() && 0 <= k < ms.len() && #[trigger] same_group(ms, i, j)
                && #[trigger] same_group(ms, i, k) && is_latest(ms, j) && is_latest(ms, k) ==> j
                == k,
{
    let n = ms.len() as int;
    let j = latest_in_group(ms, i, n);
    lemma_latest_in_group(ms, i, n);
    assert(same_group(ms, i, j));
    assert forall|m: int| 0 <= m < n && #[trigger] same_group(ms, j, m) implies !is_later(
        ms,
        m,
        j,
    ) by {
        assert(same_group(ms, i, m));
    }
    assert forall|j: int, k: int|
        0 <= j < ms.len() && 0 <= k < ms.len() && #[trigger] same_group(ms, i, j)
            && #[trigger] same_group(ms, i, k) && is_latest(ms, j) && is_latest(ms, k) implies j
        == k by {
        assert(same_group(ms, j, k));
        assert(same_group(ms, k, j));
    }
}

/// The sum of the sizes of the groups that `positions` represent, counted
/// over the first `upto` messages.
pub open spec fn told(ms: Seq<Listed>, positions: Seq<usize>, upto: int) -> nat
    decreases positions.len(),
{
    if positions.len() == 0 {
        0
    } else {
        told(ms, positions.drop_last(), upto) + group_size(ms, positions.last() as int, upto)
    }
}

proof fn lemma_told_step(ms: Seq<Listed>, positions: Seq<usize>, upto: int)
    requires
        0 < upto <= ms.len(),
        forall|a: int, b: int|
            0 <= a < b < positions.len() && #[trigger] same_group(
                ms,
                positions[a] as int,
                upto - 1,
            ) ==> !#[trigger] same_group(ms, positions[b] as int, upto - 1),
    ensures
        told(ms, positions, upto) == told(ms, positions, upto - 1) + (if exists|a: int|
            0 <= a < positions.len() && #[trigger] same_group(ms, positions[a] as int, upto - 1) {
            1nat
        } else {
            0
        }),
    decreases positions.len(),
{
    if positions.len() > 0 {
        let rest = positions.drop_last();
        assert forall|a: int, b: int|
            0 <= a < b < rest.len() && #[trigger] same_group(
                ms,
                rest[a] as int,
                upto - 1,
            ) implies !#[trigger] same_group(ms, rest[b] as int, upto - 1) by {
            assert(same_group(ms, positions[a] as int, upto - 1));
        }
        lemma_told_step(ms, rest, upto);
        let l = positions.len() - 1;
        if same_group(ms, positions[l] as int, upto - 1) {
            assert forall|a: int| 0 <= a < rest.len() implies !#[trigger] same_group(
                ms,
                rest[a] as int,
                upto - 1,
            ) by {
                if same_group(ms, positions[a] as int, upto - 1) {
                    assert(!same_group(ms, positions[l] as int, upto - 1));
                }
            }
        } else {
            if exists|a: int|
                0 <= a < positions.len() && #[trigger] same_group(
                    ms,
                    positions[a] as int,
                    upto - 1,
                ) {
                let a = choose|a: int|
                    0 <= a < positions.len() && #[trigger] same_group(
                        ms,
                        positions[a] as int,
                        upto - 1,
                    );
                assert(same_group(ms, rest[a] as int, upto - 1));
            } else {
                assert forall|a: int| 0 <= a < rest.len() implies !#[trigger] same_group(
                    ms,
                    rest[a] as int,
                    upto - 1,
                ) by {
                    assert(!same_group(ms, positions[a] as int, upto - 1));
                }
            }
        }
    }
}

proof fn lemma_told(ms: Seq<Listed>, positions: Seq<usize>, upto: int)
    requires
        0 <= upto <= ms.len(),
        ms.len() <= usize::MAX,
        positions == latest_positions(ms, ms.len() as int),
    ensures
        told(ms, positions, upto) == upto,
    decreases upto,
{
    lemma_latest_positions(ms, ms.len() as int);
    if upto == 0 {
        lemma_told_nothing(ms, positions);
    } else {
        lemma_told(ms, positions, upto - 1);
        law_every_group_has_one_latest(ms, upto - 1);
        let j = choose|j: int|
            0 <= j < ms.len() && #[trigger] same_group(ms, upto - 1, j) && is_latest(ms, j);
        assert(positions.contains(j as usize));
        let a = choose|a: int| 0 <= a < positions.len() && positions[a] == j as usize;
        assert(same_group(ms, positions[a] as int, upto - 1));
        assert forall|a: int, b: int|
            0 <= a < b < positions.len() && #[trigger] same_group(
                ms,
                positions[a] as int,
                upto - 1,
            ) implies !#[trigger] same_group(ms, positions[b] as int, upto - 1) by {
            if same_group(ms, positions[b] as int, upto - 1) {
                assert(same_group(ms, upto - 1, positions[a] as int));
                assert(same_group(ms, upto - 1, positions[b] as int));
                assert(is_latest(ms, positions[a] as int));
                assert(is_latest(ms, positions[b] as int));
                assert(positions[a] == positions[b]);
            }
        }
        lemma_told_step(ms, positions, upto);
    }
}

proof fn lemma_told_nothing(ms: Seq<Listed>, positions: Seq<usize>)
    ensures
        told(ms, positions, 0) == 0,
    decreases positions.len(),
{
    if positions.len() > 0 {
        lemma_told_nothing(ms, positions.drop_last());
    }
}

/// No message gets lost in a digest: the counts of its entries add up to the
/// number of messages.
pub proof fn law_digest_counts_every_message(ms: Seq<Listed>)
    requires
        ms.len() <= usize::MAX,
    ensures
        told(ms, latest_positions(ms, ms.len() as int), ms.len() as int) == ms.len(),
{
    lemma_told(ms, latest_positions(ms, ms.len() as int), ms.len() as int);
}

/// The entries of a digest are those of the latest messages, each once, in
/// order of urgency and, within one category, newest first.
pub proof fn law_digest_is_ordered(ms: Seq<Listed>)
    requires
        ms.len() <= usize::MAX,
    ensures
        digest_positions(ms).no_duplicates(),
        digest_positions(ms).len() == latest_positions(ms, ms.len() as int).len(),
        forall|i: usize|
            i < ms.len() && is_latest(ms, i as int) ==> #[trigger] digest_positions(
                ms,
            ).contains(i),
        forall|k: int|
            0 <= k < digest_positions(ms).len() ==> (#[trigger] digest_positions(ms)[k])
                < ms.len() && is_latest(ms, digest_positions(ms)[k] as int),
        forall|a: int, b: int|
            0 <= a < b < digest_positions(ms).len() ==> order::key_le(
                digest_key(ms[#[trigger] digest_positions(ms)[a] as int].0),
                digest_key(ms[#[trigger] digest_positions(ms)[b] as int].0),
            ),
{
    let latest = latest_positions(ms, ms.len() as int);
    lemma_latest_positions(ms, ms.len() as int);
    lemma_latest_len(ms, ms.len() as int);
    let keys = digest_keys(ms, latest);
    order::law_stable_order(keys);
    let o = order::stable_order(keys);
    let d = digest_positions(ms);
    assert forall|a: int, b: int| 0 <= a < d.len() && 0 <= b < d.len() && a != b implies d[a]
        != d[b] by {
        assert(o[a] != o[b]);
        assert(latest[o[a] as int] != latest[o[b] as int]);
    }
    assert forall|i: usize| i < ms.len() && is_latest(ms, i as int) implies #[trigger] d.contains(
        i,
    ) by {
        assert(latest.contains(i));
        let k = choose|k: int| 0 <= k < latest.len() && latest[k] == i;
        assert(o.contains(k as usize));
        let m = choose|m: int| 0 <= m < o.len() && o[m] == k as usize;
        assert(d[m] == i);
    }
    assert forall|a: int, b: int| 0 <= a < b < d.len() implies order::key_le(
        digest_key(ms[#[trigger] d[a] as int].0),
        digest_key(ms[#[trigger] d[b] as int].0),
    ) by {
        assert(order::key_le(keys[o[a] as int], keys[o[b] as int]));
    }
}

proof fn lemma_latest_len(ms: Seq<Listed>, upto: int)
    requires
        0 <= upto,
    ensures
        latest_positions(ms, upto).len() <= upto,
    decreases upto,
{
    if upto > 0 {
        lemma_latest_len(ms, upto - 1);
    }
}

/// Escalations, review requests and blockers are never collapsed.
pub proof fn law_urgent_messages_stay_single(ms: Seq<Listed>, i: int)
    requires
        0 <= i < ms.len(),
        category_of(ms[i].0.body@) == MessageCategory::Escalation || category_of(ms[i].0.body@)
            == MessageCategory::ReviewRequest || category_of(ms[i].0.body@)
            == MessageCategory::Blocker,
    ensures
        is_latest(ms, i),
        group_size(ms, i, ms.len() as int) == 1,
{
    lemma_single(ms, i, ms.len() as int);
}

proof fn lemma_single(ms: Seq<Listed>, i: int, upto: int)
    requires
        0 <= i,
        category_of(ms[i].0.body@) != MessageCategory::Nudge,
        category_of(ms[i].0.body@) != MessageCategory::Status,
    ensures
        group_size(ms, i, upto) == (if i < upto {
            1nat
        } else {
            0
        }),
    decreases upto,
{
    if upto > 0 {
        lemma_single(ms, i, upto - 1);
    }
}

} // verus!
