use crate::common::{is_frame_text, spec_deserialize, Frame, FrameType, FrameView};
use crate::storage::{spec_lookup, Storage, StorageError};
use vstd::hash_map::StringHashMap;
use vstd::prelude::*;
use vstd::string::StrSliceExecFns;

verus! {

/// Whether the server keeps accepting connections.
#[derive(PartialEq, Eq, Debug, Clone, Copy, Structural)]
pub enum ServerState {
    Active,
}

/// Unicode's White_Space characters, which `str::trim` removes.
pub open spec fn is_white_space(c: char) -> bool {
    ||| '\u{9}' <= c <= '\u{d}'
    ||| c == ' '
    ||| c == '\u{85}'
    ||| c == '\u{a0}'
    ||| c == '\u{1680}'
    ||| '\u{2000}' <= c <= '\u{200a}'
    ||| c == '\u{2028}'
    ||| c == '\u{2029}'
    ||| c == '\u{202f}'
    ||| c == '\u{205f}'
    ||| c == '\u{3000}'
}

pub open spec fn trim_start_chars(s: Seq<char>) -> Seq<char>
    decreases s.len(),
{
    if s.len() > 0 && is_white_space(s[0]) {
        trim_start_chars(s.drop_first())
    } else {
        s
    }
}

pub open spec fn trim_end_chars(s: Seq<char>) -> Seq<char>
    decreases s.len(),
{
    if s.len() > 0 && is_white_space(s.last()) {
        trim_end_chars(s.drop_last())
    } else {
        s
    }
}

/// The text without its leading and trailing white space.
pub open spec fn spec_trim(s: Seq<char>) -> Seq<char> {
    trim_end_chars(trim_start_chars(s))
}

/// Whether a character has Unicode's White_Space property.
fn white_space(c: char) -> (r: bool)
    ensures
        r == is_white_space(c),
{
    ('\u{9}' <= c && c <= '\u{d}') || c == ' ' || c == '\u{85}' || c == '\u{a0}' || c
        == '\u{1680}' || ('\u{2000}' <= c && c <= '\u{200a}') || c == '\u{2028}' || c
        == '\u{2029}' || c == '\u{202f}' || c == '\u{205f}' || c == '\u{3000}'
}

proof fn lemma_trim_start(s: Seq<char>, i: int)
    requires
        0 <= i <= s.len(),
        forall|k: int| 0 <= k < i ==> is_white_space(#[trigger] s[k]),
        i == s.len() || !is_white_space(s[i]),
    ensures
        trim_start_chars(s) == s.skip(i),
    decreases i,
{
    if i == 0 {
        assert(s.skip(0) =~= s);
    } else {
        assert(is_white_space(s[0]));
        let t = s.drop_first();
        assert forall|k: int| 0 <= k < i - 1 implies is_white_space(#[trigger] t[k]) by {
            assert(t[k] == s[k + 1]);
        }
        lemma_trim_start(t, i - 1);
        assert(t.skip(i - 1) =~= s.skip(i));
    }
}

proof fn lemma_trim_end(t: Seq<char>, k: int)
    requires
        0 <= k <= t.len(),
        forall|m: int| k <= m < t.len() ==> is_white_space(#[trigger] t[m]),
        k == 0 || !is_white_space(t[k - 1]),
    ensures
        trim_end_chars(t) == t.take(k),
    decreases t.len() - k,
{
    if k == t.len() {
        assert(t.take(k) =~= t);
        if t.len() > 0 {
            assert(t.last() == t[k - 1]);
        }
    } else {
        assert(is_white_space(t.last()));
        let u = t.drop_last();
        assert forall|m: int| k <= m < u.len() implies is_white_space(#[trigger] u[m]) by {
            assert(u[m] == t[m]);
        }
        if k > 0 {
            assert(u[k - 1] == t[k - 1]);
        }
        lemma_trim_end(u, k);
        assert(u.take(k) =~= t.take(k));
    }
}

/// The slice of `s` without leading and trailing characters that have
/// Unicode's White_Space property, as `str::trim` gives it.
fn trim(s: &str) -> (r: &str)
    ensures
        r@ == spec_trim(s@),
{
    let n = s.unicode_len();
    let mut i: usize = 0;
    while i < n && white_space(s.get_char(i))
        invariant
            i <= n,
            n == s@.len(),
            forall|k: int| 0 <= k < i ==> is_white_space(#[trigger] s@[k]),
        decreases n - i,
    {
        i = i + 1;
    }
    let mut j: usize = n;
    while j > i && white_space(s.get_char(j - 1))
        invariant
            i <= j <= n,
            n == s@.len(),
            forall|m: int| j <= m < n ==> is_white_space(#[trigger] s@[m]),
        decreases j,
    {
        j = j - 1;
    }
    proof {
        lemma_trim_start(s@, i as int);
        let t = s@.skip(i as int);
        assert forall|m: int| j - i <= m < t.len() implies is_white_space(#[trigger] t[m]) by {
            assert(t[m] == s@[m + i]);
        }
        if j > i {
            assert(t[j - i - 1] == s@[j - 1]);
        }
        lemma_trim_end(t, j - i);
        assert(t.take(j - i) =~= s@.subrange(i as int, j as int));
    }
    s.substring_char(i, j)
}

/// The channels that clients subscribed to: each name leads to the number of
/// a channel, which the caller keeps.
pub struct Channels(StringHashMap<usize>);

impl View for Channels {
    type V = Map<Seq<char>, usize>;

    closed spec fn view(&self) -> Map<Seq<char>, usize> {
        self.0@
    }
}

impl Channels {
    pub fn new() -> (r: Channels)
        ensures
            r@ == Map::<Seq<char>, usize>::empty(),
    {
        Channels(StringHashMap::new())
    }
}

/// What a connection does in answer to a frame.
#[derive(Debug)]
pub enum Action {
    /// Write this text back to the client.
    Reply(String),
    /// Send `message` on the channel with this number, then write `reply` back.
    Publish { channel: usize, message: String, reply: String },
    /// Open the channel with this number; what arrives on it goes back to
    /// this client as `topic -> message`. The channel whose number is
    /// `replaced` no longer has a name: close it.
    Subscribe { channel: usize, topic: String, replaced: Option<usize> },
    /// Nothing.
    Nothing,
}

/// An action, as characters.
pub enum ActionView {
    Reply(Seq<char>),
    Publish(usize, Seq<char>, Seq<char>),
    Subscribe(usize, Seq<char>, Option<usize>),
    Nothing,
}

impl View for Action {
    type V = ActionView;

    open spec fn view(&self) -> ActionView {
        match self {
            Action::Reply(t) => ActionView::Reply(t@),
            Action::Publish { channel, message, reply } => ActionView::Publish(
                *channel,
                message@,
                reply@,
            ),
            Action::Subscribe { channel, topic, replaced } => ActionView::Subscribe(
                *channel,
                topic@,
                *replaced,
            ),
            Action::Nothing => ActionView::Nothing,
        }
    }
}

/// Why the server could not answer a frame; the connection ends with it.
#[derive(Debug)]
pub enum ServerError {
    /// A `Get` for a key that holds no value.
    InvalidKey(String),
    /// A `Pub` on a channel that nobody opened.
    NoChannel(String),
}

/// An error, as the key it names and whether it is about a channel.
pub enum ServerErrorView {
    InvalidKey(Seq<char>),
    NoChannel(Seq<char>),
}

impl View for ServerError {
    type V = ServerErrorView;

    open spec fn view(&self) -> ServerErrorView {
        match self {
            ServerError::InvalidKey(k) => ServerErrorView::InvalidKey(k@),
            ServerError::NoChannel(k) => ServerErrorView::NoChannel(k@),
        }
    }
}

impl ServerError {
    pub open spec fn spec_message(self) -> Seq<char> {
        match self {
            ServerError::InvalidKey(k) => seq!['I', 'n', 'v', 'a', 'l', 'i', 'd', ' ', 'k', 'e', 'y', ' ']
                + k@,
            ServerError::NoChannel(k) => seq![
                'n',
                'o',
                ' ',
                'c',
                'h',
                'a',
                'n',
                'n',
                'e',
                'l',
                ' ',
                'f',
                'o',
                'r',
                ' ',
                '\'',
            ] + k@ + seq!['\''],
        }
    }

    /// The text that the error is reported with.
    pub fn message(&self) -> (r: String)
        ensures
            r@ == self.spec_message(),
    {
        match self {
            ServerError::InvalidKey(k) => {
                proof {
                    reveal_strlit("Invalid key ");
                }
                let mut text = String::from_str("Invalid key ");
                text.append(k.as_str());
                text
            },
            ServerError::NoChannel(k) => {
                proof {
                    reveal_strlit("no channel for '");
                    reveal_strlit("'");
                }
                let mut text = String::from_str("no channel for '");
                text.append(k.as_str());
                text.append("'");
                text
            },
        }
    }
}

/// What a connection does after a read of `n` bytes left `buffer` as its
/// text.
#[derive(PartialEq, Eq, Debug, Clone, Copy, Structural)]
pub enum ReadStep {
    /// The client closed the stream: the connection ends.
    Stop,
    /// The text is not a frame that can be read: the connection fails.
    Unreadable,
    /// The frame is a `Set` without a value: the connection fails.
    SetWithoutValue,
    /// The frame can be read and answered.
    Answer,
}

pub open spec fn spec_read_step(n: usize, buffer: Seq<char>) -> ReadStep {
    if n == 0 {
        ReadStep::Stop
    } else if !is_frame_text(buffer) {
        ReadStep::Unreadable
    } else if !answerable(spec_deserialize(buffer)) {
        ReadStep::SetWithoutValue
    } else {
        ReadStep::Answer
    }
}

/// Decides what a connection does with what it read.
pub fn read_step(n: usize, buffer: &str) -> (r: ReadStep)
    ensures
        r == spec_read_step(n, buffer@),
{
    if n == 0 {
        return ReadStep::Stop;
    }
    if !Frame::parsable(buffer) {
        return ReadStep::Unreadable;
    }
    let frame = Frame::deserialize(buffer);
    if frame.command == FrameType::SetValue && frame.value.is_none() {
        ReadStep::SetWithoutValue
    } else {
        ReadStep::Answer
    }
}

/// `key -> value`: how a stored pair and a forwarded message are written back.
pub open spec fn spec_pair_text(key: Seq<char>, value: Seq<char>) -> Seq<char> {
    key + seq![' ', '-', '>', ' '] + value
}

pub fn pair_text(key: &str, value: &str) -> (r: String)
    ensures
        r@ == spec_pair_text(key@, value@),
{
    proof {
        reveal_strlit(" -> ");
    }
    let mut text = String::from_str(key);
    text.append(" -> ");
    text.append(value);
    text
}

/// The reply to a publication that went out.
pub open spec fn spec_sent() -> Seq<char> {
    seq!['S', 'e', 'n', 't']
}

/// The frames that the server answers without stopping: all but a `Set` without a value.
pub open spec fn answerable(f: FrameView) -> bool {
    !(f.command == FrameType::SetValue && f.value is None)
}

/// What the server answers to frame `f`, with store contents `m` and
/// channels `c`; `fresh` is the number that a newly opened channel gets.
pub open spec fn spec_respond(
    m: Map<Seq<char>, Seq<char>>,
    c: Map<Seq<char>, usize>,
    f: FrameView,
    fresh: usize,
) -> Result<ActionView, ServerErrorView> {
    match f.command {
        FrameType::Get => match spec_lookup(m, f.key) {
            Ok(v) => Ok(ActionView::Reply(v)),
            Err(k) => Err(ServerErrorView::InvalidKey(k)),
        },
        FrameType::SetValue => Ok(ActionView::Reply(spec_pair_text(f.key, f.value->0))),
        FrameType::Pub => match f.value {
            None => Ok(ActionView::Nothing),
            Some(v) => if c.contains_key(f.key) {
                Ok(ActionView::Publish(c[f.key], v, spec_sent()))
            } else {
                Err(ServerErrorView::NoChannel(f.key))
            },
        },
        FrameType::Sub => if c.contains_key(f.key) {
            Ok(ActionView::Nothing)
        } else {
            let name = spec_trim(f.key);
            Ok(
                ActionView::Subscribe(
                    fresh,
                    f.key,
                    if c.contains_key(name) {
                        Some(c[name])
                    } else {
                        None
                    },
                ),
            )
        },
    }
}

/// The store after the server answered `f`: a `Set` stores its value.
pub open spec fn spec_store_after(m: Map<Seq<char>, Seq<char>>, f: FrameView) -> Map<
    Seq<char>,
    Seq<char>,
> {
    if f.command == FrameType::SetValue {
        m.insert(f.key, f.value->0)
    } else {
        m
    }
}

/// The channels after the server answered `f`: a `Sub` for a name that has no
/// channel opens one, filed under the name without surrounding white space.
pub open spec fn spec_channels_after(c: Map<Seq<char>, usize>, f: FrameView, fresh: usize) -> Map<
    Seq<char>,
    usize,
> {
    if f.command == FrameType::Sub && !c.contains_key(f.key) {
        c.insert(spec_trim(f.key), fresh)
    } else {
        c
    }
}

/// An answer, as characters.
pub open spec fn respond_view(r: Result<Action, ServerError>) -> Result<ActionView, ServerErrorView> {
    match r {
        Ok(a) => Ok(a@),
        Err(e) => Err(e@),
    }
}

/// Answers one frame that a client sent: reads or writes the store, looks up
/// or opens a channel, and says what to write back.
pub fn respond(store: &mut Storage, channels: &mut Channels, frame: &Frame, fresh: usize) -> (r:
    Result<Action, ServerError>)
    requires
        answerable(frame@),
    ensures
        respond_view(r) == spec_respond(old(store)@, old(channels)@, frame@, fresh),
        final(store)@ == spec_store_after(old(store)@, frame@),
        final(channels)@ == spec_channels_after(old(channels)@, frame@, fresh),
{
    let key = frame.key;
    match frame.command {
        FrameType::Get => match store.get(key) {
            Ok(value) => Ok(Action::Reply(value)),
            Err(StorageError::InvalidKey(k)) => Err(ServerError::InvalidKey(k)),
        },
        FrameType::SetValue => {
            let value = match frame.value {
                Some(v) => v,
                None => {
                    assert(false);
                    ""
                },
            };
            let _ = store.insert(key, value);
            Ok(Action::Reply(pair_text(key, value)))
        },
        FrameType::Pub => match frame.value {
            None => Ok(Action::Nothing),
            Some(value) => match channels.0.get(key) {
                Some(channel) => {
                    proof {
                        reveal_strlit("Sent");
                    }
                    let reply = String::from_str("Sent");
                    assert(reply@ =~= spec_sent());
                    Ok(Action::Publish { channel: *channel, message: String::from_str(value), reply })
                },
                None => Err(ServerError::NoChannel(String::from_str(key))),
            },
        },
        FrameType::Sub => {
            if channels.0.contains_key(key) {
                Ok(Action::Nothing)
            } else {
                let name = trim(key);
                let replaced = match channels.0.get(name) {
                    Some(n) => Some(*n),
                    None => None,
                };
                channels.0.insert(String::from_str(name), fresh);
                Ok(Action::Subscribe { channel: fresh, topic: String::from_str(key), replaced })
            }
        },
    }
}


/// A `Get` after a `Set` of the same key answers the value that was set.
pub proof fn lemma_get_after_set(
    m: Map<Seq<char>, Seq<char>>,
    c: Map<Seq<char>, usize>,
    key: Seq<char>,
    value: Seq<char>,
    fresh: usize,
)
    ensures
        ({
            let set = FrameView { command: FrameType::SetValue, key, value: Some(value) };
            let get = FrameView { command: FrameType::Get, key, value: None };
            spec_respond(spec_store_after(m, set), spec_channels_after(c, set, fresh), get, fresh)
                == Ok::<ActionView, ServerErrorView>(ActionView::Reply(value))
        }),
{
}

/// After a subscription to a name without surrounding white space, a
/// publication on that name goes out on the channel that serves the name: the
/// newly opened one, or the one that was already open.
pub proof fn lemma_pub_after_sub(
    m: Map<Seq<char>, Seq<char>>,
    c: Map<Seq<char>, usize>,
    key: Seq<char>,
    message: Seq<char>,
    fresh: usize,
    later: usize,
)
    requires
        spec_trim(key) == key,
    ensures
        ({
            let sub = FrameView { command: FrameType::Sub, key, value: None };
            let publish = FrameView { command: FrameType::Pub, key, value: Some(message) };
            let c1 = spec_channels_after(c, sub, fresh);
            let channel = if c.contains_key(key) {
                c[key]
            } else {
                fresh
            };
            spec_respond(spec_store_after(m, sub), c1, publish, later)
                == Ok::<ActionView, ServerErrorView>(ActionView::Publish(channel, message, spec_sent()))
        }),
{
}

/// A second subscription to a name without surrounding white space opens no
/// further channel.
pub proof fn lemma_sub_twice(
    c: Map<Seq<char>, usize>,
    m: Map<Seq<char>, Seq<char>>,
    key: Seq<char>,
    fresh: usize,
    later: usize,
)
    requires
        spec_trim(key) == key,
    ensures
        ({
            let sub = FrameView { command: FrameType::Sub, key, value: None };
            let c1 = spec_channels_after(c, sub, fresh);
            &&& spec_respond(m, c1, sub, later) == Ok::<ActionView, ServerErrorView>(
                ActionView::Nothing,
            )
            &&& spec_channels_after(c1, sub, later) == c1
        }),
{
}


/// A `Set` replies with its key, ` -> ` and the value it carries, whatever
/// the store or the channels held before, and whatever number a new channel
/// would get.
pub proof fn lemma_set_reply(
    m: Map<Seq<char>, Seq<char>>,
    c: Map<Seq<char>, usize>,
    key: Seq<char>,
    value: Seq<char>,
    fresh: usize,
)
    ensures
        spec_respond(m, c, FrameView { command: FrameType::SetValue, key, value: Some(value) }, fresh)
            == Ok::<ActionView, ServerErrorView>(
            ActionView::Reply(key + seq![' ', '-', '>', ' '] + value),
        ),
{
}

/// Only a `Set` changes the store, and it changes only its key, to its value.
pub proof fn lemma_store_changes_only_on_set(m: Map<Seq<char>, Seq<char>>, f: FrameView)
    requires
        answerable(f),
    ensures
        f.command != FrameType::SetValue ==> spec_store_after(m, f) == m,
        f.command == FrameType::SetValue ==> spec_store_after(m, f).contains_key(f.key)
            && spec_store_after(m, f)[f.key] == f.value->0,
        forall|k: Seq<char>|
            k != f.key ==> (#[trigger] spec_store_after(m, f).contains_key(k) == m.contains_key(k)
                && (m.contains_key(k) ==> spec_store_after(m, f)[k] == m[k])),
{
}

/// Only a `Sub` changes the channels: a `Get`, a `Set` or a `Pub` leaves them as they were.
pub proof fn lemma_channels_change_only_on_sub(c: Map<Seq<char>, usize>, f: FrameView, fresh: usize)
    requires
        f.command != FrameType::Sub,
    ensures
        spec_channels_after(c, f, fresh) == c,
{
}

/// A `Get` of a key that holds no value fails with `InvalidKey` naming the
/// key, and leaves the store as it was, so any number of later `Get`s of the
/// key fail the same way.
pub proof fn lemma_get_missing_stays_missing(
    m: Map<Seq<char>, Seq<char>>,
    c: Map<Seq<char>, usize>,
    key: Seq<char>,
    fresh: usize,
)
    requires
        !m.contains_key(key),
    ensures
        ({
            let get = FrameView { command: FrameType::Get, key, value: None };
            &&& spec_respond(m, c, get, fresh) == Err::<ActionView, ServerErrorView>(
                ServerErrorView::InvalidKey(key),
            )
            &&& spec_store_after(m, get) == m
            &&& spec_channels_after(c, get, fresh) == c
        }),
{
}

/// The frames answered in turn: the store and the channels after each, and the
/// answer to each; `fresh` gives the number that a new channel gets at each step.
pub open spec fn respond_all(
    m: Map<Seq<char>, Seq<char>>,
    c: Map<Seq<char>, usize>,
    frames: Seq<FrameView>,
    fresh: Seq<usize>,
) -> Seq<Result<ActionView, ServerErrorView>>
    decreases frames.len(),
{
    if frames.len() == 0 || fresh.len() == 0 {
        Seq::empty()
    } else {
        seq![spec_respond(m, c, frames[0], fresh[0])] + respond_all(
            spec_store_after(m, frames[0]),
            spec_channels_after(c, frames[0], fresh[0]),
            frames.drop_first(),
            fresh.drop_first(),
        )
    }
}

/// After a subscription to a name without surrounding white space, any number
/// of publications on that name all go out on one channel, the one that serves
/// the name, each with its own message and the reply `Sent`.
pub proof fn lemma_pubs_after_sub(
    m: Map<Seq<char>, Seq<char>>,
    c: Map<Seq<char>, usize>,
    key: Seq<char>,
    fresh: usize,
    messages: Seq<Seq<char>>,
    later: Seq<usize>,
)
    requires
        spec_trim(key) == key,
        later.len() == messages.len(),
    ensures
        ({
            let sub = FrameView { command: FrameType::Sub, key, value: None };
            let c1 = spec_channels_after(c, sub, fresh);
            let pubs = Seq::new(
                messages.len(),
                |i: int| FrameView { command: FrameType::Pub, key, value: Some(messages[i]) },
            );
            let answers = respond_all(spec_store_after(m, sub), c1, pubs, later);
            let channel = if c.contains_key(key) {
                c[key]
            } else {
                fresh
            };
            &&& answers.len() == messages.len()
            &&& forall|i: int|
                0 <= i < messages.len() ==> #[trigger] answers[i] == Ok::<
                    ActionView,
                    ServerErrorView,
                >(ActionView::Publish(channel, messages[i], seq!['S', 'e', 'n', 't']))
        }),
{
    let sub = FrameView { command: FrameType::Sub, key, value: None };
    let c1 = spec_channels_after(c, sub, fresh);
    let channel = if c.contains_key(key) {
        c[key]
    } else {
        fresh
    };
    assert(c1.contains_key(key) && c1[key] == channel);
    lemma_pubs_on_open_channel(m, c1, key, channel, messages, later);
    let pubs = Seq::new(
        messages.len(),
        |i: int| FrameView { command: FrameType::Pub, key, value: Some(messages[i]) },
    );
    assert(pubs =~= pub_frames(key, messages));
}

pub open spec fn pub_frames(key: Seq<char>, messages: Seq<Seq<char>>) -> Seq<FrameView> {
    Seq::new(
        messages.len(),
        |i: int| FrameView { command: FrameType::Pub, key, value: Some(messages[i]) },
    )
}

proof fn lemma_pubs_on_open_channel(
    m: Map<Seq<char>, Seq<char>>,
    c: Map<Seq<char>, usize>,
    key: Seq<char>,
    channel: usize,
    messages: Seq<Seq<char>>,
    later: Seq<usize>,
)
    requires
        c.contains_key(key),
        c[key] == channel,
        later.len() == messages.len(),
    ensures
        ({
            let answers = respond_all(m, c, pub_frames(key, messages), later);
            &&& answers.len() == messages.len()
            &&& forall|i: int|
                0 <= i < messages.len() ==> #[trigger] answers[i] == Ok::<
                    ActionView,
                    ServerErrorView,
                >(ActionView::Publish(channel, messages[i], seq!['S', 'e', 'n', 't']))
        }),
    decreases messages.len(),
{
    let frames = pub_frames(key, messages);
    if messages.len() > 0 {
        let f0 = frames[0];
        assert(spec_store_after(m, f0) == m);
        assert(spec_channels_after(c, f0, later[0]) == c);
        assert(frames.drop_first() =~= pub_frames(key, messages.drop_first()));
        lemma_pubs_on_open_channel(m, c, key, channel, messages.drop_first(), later.drop_first());
        let answers = respond_all(m, c, frames, later);
        let rest = respond_all(m, c, pub_frames(key, messages.drop_first()), later.drop_first());
        assert(answers == seq![spec_respond(m, c, f0, later[0])] + rest);
        assert forall|i: int| 0 <= i < messages.len() implies #[trigger] answers[i] == Ok::<
            ActionView,
            ServerErrorView,
        >(ActionView::Publish(channel, messages[i], seq!['S', 'e', 'n', 't'])) by {
            if i > 0 {
                assert(answers[i] == rest[i - 1]);
                assert(messages.drop_first()[i - 1] == messages[i]);
            }
        }
    }
}

/// What a connection does with a read: it stops exactly when nothing was
/// read; otherwise a text that is not a frame fails it, a `Set` without a
/// value fails it, and every other frame (any `Get`, `Pub` or `Sub`, and a
/// `Set` with a value) is answered.
pub proof fn lemma_read_step_outcomes(n: usize, s: Seq<char>)
    ensures
        n == 0 ==> spec_read_step(n, s) == ReadStep::Stop,
        n > 0 && !is_frame_text(s) ==> spec_read_step(n, s) == ReadStep::Unreadable,
        n > 0 && is_frame_text(s) && spec_deserialize(s).command != FrameType::SetValue
            ==> spec_read_step(n, s) == ReadStep::Answer,
        n > 0 && is_frame_text(s) && spec_deserialize(s).value is Some ==> spec_read_step(n, s)
            == ReadStep::Answer,
        n > 0 && is_frame_text(s) && spec_deserialize(s).command == FrameType::SetValue
            && spec_deserialize(s).value is None ==> spec_read_step(n, s)
            == ReadStep::SetWithoutValue,
{
}

} // verus!
