use vstd::prelude::*;

verus! {

/// An embed attached to a message, reduced to the fields that decide
/// whether two embeds are the same.
pub struct Embed {
    pub title: Option<String>,
    pub description: Option<String>,
    pub kind: Option<String>,
    pub url: Option<String>,
}

/// The mathematical value of an optional text field.
pub open spec fn text_view(t: Option<String>) -> Option<Seq<char>> {
    match t {
        Some(s) => Some(s@),
        None => None,
    }
}

pub struct EmbedView {
    pub title: Option<Seq<char>>,
    pub description: Option<Seq<char>>,
    pub kind: Option<Seq<char>>,
    pub url: Option<Seq<char>>,
}

impl View for Embed {
    type V = EmbedView;

    open spec fn view(&self) -> EmbedView {
        EmbedView {
            title: text_view(self.title),
            description: text_view(self.description),
            kind: text_view(self.kind),
            url: text_view(self.url),
        }
    }
}

/// A message as it is kept in the window: who posted what, where and when.
/// `timestamp` is the arrival time in milliseconds on a monotonic clock.
pub struct MessageRecord {
    pub id: u64,
    pub author: u64,
    pub channel: u64,
    pub guild: u64,
    pub content: String,
    pub embeds: Vec<Embed>,
    pub timestamp: u64,
}

/// The embeds of a record, as values.
pub open spec fn embed_views(m: MessageRecord) -> Seq<EmbedView> {
    m.embeds@.map_values(|e: Embed| e@)
}

/// A message event as the chat gateway delivers it, before it is admitted.
pub struct MessageEvent {
    pub id: u64,
    pub author: u64,
    pub author_is_bot: bool,
    pub channel: u64,
    pub guild: Option<u64>,
    pub content: String,
    pub embeds: Vec<Embed>,
}

/// Events from bots, with empty content, or outside a server are not kept.
pub open spec fn admitted(ev: MessageEvent) -> bool {
    !ev.author_is_bot && ev.content@.len() > 0 && ev.guild.is_some()
}

/// The record that an admitted event becomes when it arrives at `now`.
pub open spec fn record_of(ev: MessageEvent, now: u64) -> MessageRecord {
    MessageRecord {
        id: ev.id,
        author: ev.author,
        channel: ev.channel,
        guild: ev.guild.unwrap(),
        content: ev.content,
        embeds: ev.embeds,
        timestamp: now,
    }
}

/// Turns an event into a record stamped with `now`, or `None` where the
/// event is not to be kept.
pub fn to_record(ev: MessageEvent, now: u64) -> (r: Option<MessageRecord>)
    ensures
        admitted(ev) ==> r == Some(record_of(ev, now)),
        !admitted(ev) ==> r.is_none(),
{
    if ev.author_is_bot || ev.content.as_str().is_empty() {
        return None;
    }
    match ev.guild {
        Some(guild) => Some(
            MessageRecord {
                id: ev.id,
                author: ev.author,
                channel: ev.channel,
                guild,
                content: ev.content,
                embeds: ev.embeds,
                timestamp: now,
            },
        ),
        None => None,
    }
}

} // verus!
