//! The frames that the companion sends to the service.

use crate::json::{elements, json_text, members, put, render, Json, JsonTree};
use crate::service::texts_of;
use crate::text::join2;
use vstd::prelude::*;

verus! {

/// The list of texts as a JSON value.
pub open spec fn text_list(texts: Seq<Seq<char>>) -> JsonTree {
    JsonTree::Array(Seq::new(texts.len(), |i: int| JsonTree::Text(texts[i])))
}

/// The frame that subscribes to the events of sessions. The first one of a connection
/// has a name.
pub open spec fn subscription(ids: Seq<Seq<char>>, first: bool) -> JsonTree {
    let payload = JsonTree::Object(map!["session_ids"@ => text_list(ids)]);
    let frame = map!["type"@ => JsonTree::Text("subscribe"@), "payload"@ => payload];
    JsonTree::Object(
        if first {
            frame.insert("id"@, JsonTree::Text("sub-0"@))
        } else {
            frame
        },
    )
}

/// The frame that subscribes to the transcript of one session, down to every addition.
pub open spec fn transcript_subscription(id: Seq<char>) -> JsonTree {
    let transcript = JsonTree::Object(map!["*"@ => JsonTree::Text("delta"@)]);
    let payload = JsonTree::Object(
        map!["session_id"@ => JsonTree::Text(id), "transcript"@ => transcript],
    );
    JsonTree::Object(
        map![
            "type"@ => JsonTree::Text("subscribe_v2"@),
            "id"@ => JsonTree::Text("sv2-"@ + id),
            "payload"@ => payload,
        ],
    )
}

/// The sign of life that answers a ping: it repeats the ping's payload.
pub open spec fn pong(payload: JsonTree) -> JsonTree {
    JsonTree::Object(map!["type"@ => JsonTree::Text("pong"@), "payload"@ => payload])
}

fn text(s: &str) -> (r: Json)
    ensures
        r@ == JsonTree::Text(s@),
{
    Json::Text(s.to_owned())
}

fn texts(list: &Vec<String>) -> (r: Json)
    ensures
        r@ == text_list(texts_of(list@)),
{
    let mut items: Vec<Json> = Vec::new();
    let mut i: usize = 0;
    while i < list.len()
        invariant
            i == items.len(),
            i <= list.len(),
            forall|k: int| 0 <= k < i ==> #[trigger] items[k]@ == JsonTree::Text(list[k]@),
        decreases list.len() - i,
    {
        items.push(text(list[i].as_str()));
        i = i + 1;
    }
    proof {
        let wanted = text_list(texts_of(list@))->Array_0;
        assert forall|k: int| 0 <= k < items.len() implies elements(items@)[k] == wanted[k] by {
            assert(items[k]@ == JsonTree::Text(list[k]@));
        }
        assert(elements(items@) =~= wanted);
    }
    Json::Array(items)
}

/// Writes the frame that subscribes to sessions.
pub fn subscribe_frame(ids: &Vec<String>, first: bool) -> (r: String)
    ensures
        r@ == json_text(subscription(texts_of(ids@), first)),
{
    let mut payload: Vec<(String, Json)> = Vec::new();
    put(&mut payload, "session_ids", texts(ids));
    let mut frame: Vec<(String, Json)> = Vec::new();
    put(&mut frame, "type", text("subscribe"));
    put(&mut frame, "payload", Json::Object(payload));
    if first {
        put(&mut frame, "id", text("sub-0"));
    }
    proof {
        assert(members(frame@) =~= subscription(texts_of(ids@), first)->Object_0);
    }
    render(Json::Object(frame))
}

/// Writes the frame that subscribes to a session's transcript.
pub fn sv2_frame(id: &str) -> (r: String)
    ensures
        r@ == json_text(transcript_subscription(id@)),
{
    let mut transcript: Vec<(String, Json)> = Vec::new();
    put(&mut transcript, "*", text("delta"));
    let mut payload: Vec<(String, Json)> = Vec::new();
    put(&mut payload, "session_id", text(id));
    put(&mut payload, "transcript", Json::Object(transcript));
    let name = join2("sv2-", id);
    let mut frame: Vec<(String, Json)> = Vec::new();
    put(&mut frame, "type", text("subscribe_v2"));
    put(&mut frame, "id", text(name.as_str()));
    put(&mut frame, "payload", Json::Object(payload));
    render(Json::Object(frame))
}

/// Writes the answer to a ping.
pub fn pong_frame(payload: Json) -> (r: String)
    ensures
        r@ == json_text(pong(payload@)),
{
    let mut frame: Vec<(String, Json)> = Vec::new();
    put(&mut frame, "type", text("pong"));
    put(&mut frame, "payload", payload);
    render(Json::Object(frame))
}

/// A list of texts as JSON has these texts as its elements, in their order.
pub proof fn law_text_list(texts: Seq<Seq<char>>, i: int)
    ensures
        text_list(texts) matches JsonTree::Array(items) && items.len() == texts.len() && (0 <= i
            < texts.len() ==> items[i] == JsonTree::Text(texts[i])),
{
}

/// The literals that name the members of frames differ from each other.
proof fn lemma_member_names()
    ensures
        "type"@.len() == 4 && "payload"@.len() == 7 && "id"@.len() == 2,
        "session_id"@.len() == 10 && "transcript"@.len() == 10 && "session_id"@ != "transcript"@,
{
    reveal_strlit("type");
    reveal_strlit("payload");
    reveal_strlit("id");
    reveal_strlit("session_id");
    reveal_strlit("transcript");
    assert("session_id"@[0] == 's' && "transcript"@[0] == 't');
}

/// A frame that subscribes to sessions says so, lists exactly these sessions in their
/// order, and has a name exactly if it is the first of its connection. It has no other
/// members.
pub proof fn law_subscription(ids: Seq<Seq<char>>, first: bool, key: Seq<char>)
    ensures
        ({
            let frame = subscription(ids, first);
            &&& frame.text_field("type"@) == Some("subscribe"@)
            &&& frame.field("payload"@) matches Some(payload) && payload.field("session_ids"@)
                == Some(
                JsonTree::Array(Seq::new(ids.len(), |i: int| JsonTree::Text(ids[i]))),
            ) && (key != "session_ids"@ ==> payload.field(key) is None)
            &&& first ==> frame.text_field("id"@) == Some("sub-0"@)
            &&& !first ==> frame.field("id"@) is None
            &&& key != "type"@ && key != "payload"@ && key != "id"@ ==> frame.field(key) is None
        }),
{
    lemma_member_names();
}

/// A frame that subscribes to a transcript says so, is named after the session and asks
/// for every addition to all of that session's transcript. It has no other members.
pub proof fn law_transcript_subscription(id: Seq<char>, key: Seq<char>)
    ensures
        ({
            let frame = transcript_subscription(id);
            &&& frame.text_field("type"@) == Some("subscribe_v2"@)
            &&& frame.text_field("id"@) == Some("sv2-"@ + id)
            &&& frame.field("payload"@) matches Some(payload) && payload.text_field("session_id"@)
                == Some(id) && (payload.field("transcript"@) matches Some(transcript)
                && transcript.text_field("*"@) == Some("delta"@) && (key != "*"@
                ==> transcript.field(key) is None)) && (key != "session_id"@ && key
                != "transcript"@ ==> payload.field(key) is None)
            &&& key != "type"@ && key != "payload"@ && key != "id"@ ==> frame.field(key) is None
        }),
{
    lemma_member_names();
}

/// A sign of life says that it is one, and carries just the payload that it answers.
pub proof fn law_pong(payload: JsonTree, key: Seq<char>)
    ensures
        pong(payload).text_field("type"@) == Some("pong"@),
        pong(payload).field("payload"@) == Some(payload),
        key != "type"@ && key != "payload"@ ==> pong(payload).field(key) is None,
{
    lemma_member_names();
}

} // verus!
