//! Turning conversation messages into the provider's wire messages.
use vstd::prelude::*;
use vstd::string::*;
use crate::models::{Message, MessageImage};
use crate::events::opt_text;

verus! {

/// One block of a message's wire content.
pub enum ContentBlock {
    Text(String),
    Image(MessageImage),
    Document(MessageImage),
}

/// A block as a mathematical value; attachments as (media type, data).
pub ghost enum BlockModel {
    Text(Seq<char>),
    Image(Seq<char>, Seq<char>),
    Document(Seq<char>, Seq<char>),
}

impl View for ContentBlock {
    type V = BlockModel;

    open spec fn view(&self) -> BlockModel {
        match self {
            ContentBlock::Text(t) => BlockModel::Text(t@),
            ContentBlock::Image(a) => BlockModel::Image(a@.0, a@.1),
            ContentBlock::Document(a) => BlockModel::Document(a@.0, a@.1),
        }
    }
}

/// A message's wire content: plain text, or a list of blocks.
pub enum MessageContent {
    Text(String),
    Blocks(Vec<ContentBlock>),
}

pub ghost enum ContentModel {
    Text(Seq<char>),
    Blocks(Seq<BlockModel>),
}

pub open spec fn blocks_view(v: Seq<ContentBlock>) -> Seq<BlockModel> {
    v.map_values(|b: ContentBlock| b@)
}

impl View for MessageContent {
    type V = ContentModel;

    open spec fn view(&self) -> ContentModel {
        match self {
            MessageContent::Text(t) => ContentModel::Text(t@),
            MessageContent::Blocks(bs) => ContentModel::Blocks(blocks_view(bs@)),
        }
    }
}

/// A message as the provider receives it.
pub struct WireMessage {
    pub role: String,
    pub content: MessageContent,
}

impl View for WireMessage {
    type V = (Seq<char>, ContentModel);

    open spec fn view(&self) -> (Seq<char>, ContentModel) {
        (self.role@, self.content@)
    }
}

/// One entry of an attachment list as stored: each field is present only
/// when it is a string.
pub struct AttachmentEntry {
    pub data: Option<String>,
    pub media_type: Option<String>,
}

impl View for AttachmentEntry {
    type V = (Option<Seq<char>>, Option<Seq<char>>);

    /// The data, then the media type.
    open spec fn view(&self) -> (Option<Seq<char>>, Option<Seq<char>>) {
        (opt_text(self.data), opt_text(self.media_type))
    }
}

pub open spec fn entries_view(v: Seq<AttachmentEntry>) -> Seq<(Option<Seq<char>>, Option<Seq<char>>)> {
    v.map_values(|e: AttachmentEntry| e@)
}

pub open spec fn opt_entries(o: Option<Vec<AttachmentEntry>>) -> Option<Seq<(Option<Seq<char>>, Option<Seq<char>>)>> {
    match o {
        Some(v) => Some(entries_view(v@)),
        None => None,
    }
}

pub open spec fn sources_view(v: Seq<MessageImage>) -> Seq<(Seq<char>, Seq<char>)> {
    v.map_values(|a: MessageImage| a@)
}

/// The entries of a stored attachment list: `None` when the text is not a
/// JSON array.
pub uninterp spec fn attachment_entries_of(json: Seq<char>) -> Option<Seq<(Option<Seq<char>>, Option<Seq<char>>)>>;

/// Relies on serde_json::from_str into a Vec of serde_json::Value, each read
/// through Value::get and Value::as_str: the entries depend on the text alone.
#[verifier::external_body]
fn parse_attachment_entries(json: &str) -> (r: Option<Vec<AttachmentEntry>>)
    ensures
        opt_entries(r) == attachment_entries_of(json@),
{
    let items: Vec<serde_json::Value> = serde_json::from_str(json).ok()?;
    Some(items.iter().map(|v| AttachmentEntry {
        data: v.get("data").and_then(|d| d.as_str()).map(|d| d.to_string()),
        media_type: v.get("media_type").and_then(|m| m.as_str()).map(|m| m.to_string()),
    }).collect())
}

/// The attachments of the entries that have both fields, in order, as
/// (media type, data); the other entries are dropped.
pub open spec fn valid_sources(es: Seq<(Option<Seq<char>>, Option<Seq<char>>)>) -> Seq<(Seq<char>, Seq<char>)>
    decreases es.len(),
{
    if es.len() == 0 {
        Seq::empty()
    } else {
        let rest = valid_sources(es.drop_last());
        match es.last() {
            (Some(d), Some(m)) => rest.push((m, d)),
            _ => rest,
        }
    }
}

/// The attachments that a stored list yields: none when it is absent or not
/// a JSON array.
pub open spec fn stored_sources(json: Option<Seq<char>>) -> Seq<(Seq<char>, Seq<char>)> {
    match json {
        Some(s) => match attachment_entries_of(s) {
            Some(es) => valid_sources(es),
            None => Seq::empty(),
        },
        None => Seq::empty(),
    }
}

pub open spec fn image_block(s: (Seq<char>, Seq<char>)) -> BlockModel {
    BlockModel::Image(s.0, s.1)
}

pub open spec fn document_block(s: (Seq<char>, Seq<char>)) -> BlockModel {
    BlockModel::Document(s.0, s.1)
}

/// The wire content of a message: with attachments, the text block if the
/// text is not empty, then the images, then the documents, each in order;
/// without, the plain text.
pub open spec fn content_of(
    text: Seq<char>,
    images: Seq<(Seq<char>, Seq<char>)>,
    documents: Seq<(Seq<char>, Seq<char>)>,
) -> ContentModel {
    if images.len() + documents.len() > 0 {
        let head = if text.len() > 0 { seq![BlockModel::Text(text)] } else { Seq::empty() };
        ContentModel::Blocks(head + images.map_values(|s| image_block(s)) + documents.map_values(|s| document_block(s)))
    } else {
        ContentModel::Text(text)
    }
}

/// The wire message for a message with this role, text and stored attachment lists.
pub open spec fn wire_message_of(
    role: Seq<char>,
    text: Seq<char>,
    images: Option<Seq<char>>,
    documents: Option<Seq<char>>,
) -> (Seq<char>, ContentModel) {
    (role, content_of(text, stored_sources(images), stored_sources(documents)))
}

/// The attachments of the entries that have both `data` and `media_type`, in order.
pub fn valid_attachments(entries: &Vec<AttachmentEntry>) -> (r: Vec<MessageImage>)
    ensures
        sources_view(r@) == valid_sources(entries_view(entries@)),
{
    let mut out: Vec<MessageImage> = Vec::new();
    let mut k: usize = 0;
    while k < entries.len()
        invariant
            0 <= k <= entries@.len(),
            sources_view(out@) == valid_sources(entries_view(entries@).subrange(0, k as int)),
        decreases entries@.len() - k,
    {
        let ghost prev = out@;
        let ghost next_part = entries_view(entries@).subrange(0, k + 1 as int);
        assert(next_part.drop_last() =~= entries_view(entries@).subrange(0, k as int));
        assert(next_part.last() == entries@[k as int]@);
        let e = &entries[k];
        match (&e.data, &e.media_type) {
            (Some(d), Some(m)) => {
                out.push(MessageImage { data: d.clone(), media_type: m.clone() });
                assert(sources_view(out@) =~= sources_view(prev).push(out@.last()@));
            },
            _ => {},
        }
        k = k + 1;
    }
    assert(entries_view(entries@).subrange(0, entries@.len() as int) =~= entries_view(entries@));
    out
}

/// The attachments of a stored list: none when it is absent or cannot be read.
fn stored_attachments(json: &Option<String>) -> (r: Vec<MessageImage>)
    ensures
        sources_view(r@) == stored_sources(opt_text(*json)),
{
    match json {
        Some(s) => match parse_attachment_entries(s.as_str()) {
            Some(entries) => valid_attachments(&entries),
            None => Vec::new(),
        },
        None => Vec::new(),
    }
}

/// The wire content of a message from its text and attachments.
pub fn assemble_content(
    text: String,
    images: Vec<MessageImage>,
    documents: Vec<MessageImage>,
) -> (r: MessageContent)
    ensures
        r@ == content_of(text@, sources_view(images@), sources_view(documents@)),
{
    if images.len() == 0 && documents.len() == 0 {
        return MessageContent::Text(text);
    }
    let ghost text_view = text@;
    let ghost head = if text_view.len() > 0 { seq![BlockModel::Text(text_view)] } else { Seq::<BlockModel>::empty() };
    let mut blocks: Vec<ContentBlock> = Vec::new();
    if !text.as_str().is_empty() {
        blocks.push(ContentBlock::Text(text));
    }
    assert(blocks_view(blocks@) =~= head);
    push_sources(&mut blocks, &images, false);
    push_sources(&mut blocks, &documents, true);
    assert(head + image_blocks(sources_view(images@)) + document_blocks(sources_view(documents@))
        =~= head + sources_view(images@).map_values(|s| image_block(s))
            + sources_view(documents@).map_values(|s| document_block(s)));
    MessageContent::Blocks(blocks)
}

pub open spec fn image_blocks(s: Seq<(Seq<char>, Seq<char>)>) -> Seq<BlockModel> {
    s.map_values(|x: (Seq<char>, Seq<char>)| image_block(x))
}

pub open spec fn document_blocks(s: Seq<(Seq<char>, Seq<char>)>) -> Seq<BlockModel> {
    s.map_values(|x: (Seq<char>, Seq<char>)| document_block(x))
}

/// Append one block per attachment, in order: documents or images.
fn push_sources(blocks: &mut Vec<ContentBlock>, sources: &Vec<MessageImage>, as_documents: bool)
    ensures
        blocks_view(final(blocks)@) == blocks_view(old(blocks)@) + if as_documents {
            document_blocks(sources_view(sources@))
        } else {
            image_blocks(sources_view(sources@))
        },
{
    let ghost start = blocks_view(blocks@);
    let ghost sv = sources_view(sources@);
    let mut k: usize = 0;
    while k < sources.len()
        invariant
            k <= sources@.len(),
            sv == sources_view(sources@),
            blocks_view(blocks@) == start + if as_documents {
                document_blocks(sv.subrange(0, k as int))
            } else {
                image_blocks(sv.subrange(0, k as int))
            },
        decreases sources@.len() - k,
    {
        let a = &sources[k];
        let item = MessageImage { data: a.data.clone(), media_type: a.media_type.clone() };
        let block = if as_documents { ContentBlock::Document(item) } else { ContentBlock::Image(item) };
        let ghost prev = blocks@;
        blocks.push(block);
        assert(blocks_view(blocks@) =~= blocks_view(prev).push(block@));
        assert(document_blocks(sv.subrange(0, k + 1 as int)) =~= document_blocks(sv.subrange(0, k as int)).push(document_block(sv[k as int])));
        assert(image_blocks(sv.subrange(0, k + 1 as int)) =~= image_blocks(sv.subrange(0, k as int)).push(image_block(sv[k as int])));
        assert(start + document_blocks(sv.subrange(0, k + 1 as int)) =~= (start + document_blocks(sv.subrange(0, k as int))).push(document_block(sv[k as int])));
        assert(start + image_blocks(sv.subrange(0, k + 1 as int)) =~= (start + image_blocks(sv.subrange(0, k as int))).push(image_block(sv[k as int])));
        k = k + 1;
    }
    assert(sv.subrange(0, sources@.len() as int) =~= sv);
}

/// The wire message for one conversation message.
pub fn adapt_message(m: &Message) -> (r: WireMessage)
    ensures
        r@ == wire_message_of(m.role@, m.content@, opt_text(m.images), opt_text(m.documents)),
{
    let images = stored_attachments(&m.images);
    let documents = stored_attachments(&m.documents);
    let content = assemble_content(m.content.clone(), images, documents);
    WireMessage { role: m.role.clone(), content }
}

/// The wire messages for a conversation, oldest first.
pub fn adapt_messages(ms: &Vec<Message>) -> (r: Vec<WireMessage>)
    ensures
        r@.len() == ms@.len(),
        forall|i: int| 0 <= i < ms@.len() ==> #[trigger] r@[i]@ == wire_message_of(
            ms@[i].role@, ms@[i].content@, opt_text(ms@[i].images), opt_text(ms@[i].documents)),
{
    let mut out: Vec<WireMessage> = Vec::new();
    let mut k: usize = 0;
    while k < ms.len()
        invariant
            k <= ms@.len(),
            out@.len() == k,
            forall|i: int| 0 <= i < k ==> #[trigger] out@[i]@ == wire_message_of(
                ms@[i].role@, ms@[i].content@, opt_text(ms@[i].images), opt_text(ms@[i].documents)),
        decreases ms@.len() - k,
    {
        let w = adapt_message(&ms[k]);
        out.push(w);
        k = k + 1;
    }
    out
}

/// With non-empty text and some attachment, the blocks come in this order:
/// the text, then every image in its original order, then every document in
/// its original order.
pub proof fn lemma_block_order(
    text: Seq<char>,
    images: Seq<(Seq<char>, Seq<char>)>,
    documents: Seq<(Seq<char>, Seq<char>)>,
)
    requires
        text.len() > 0,
        images.len() + documents.len() > 0,
    ensures
        content_of(text, images, documents) is Blocks,
        ({
            let b = content_of(text, images, documents)->Blocks_0;
            &&& b.len() == 1 + images.len() + documents.len()
            &&& b[0] == BlockModel::Text(text)
            &&& forall|i: int| 0 <= i < images.len() ==> b[1 + i] == BlockModel::Image(images[i].0, images[i].1)
            &&& forall|j: int| 0 <= j < documents.len()
                ==> b[1 + images.len() + j] == BlockModel::Document(documents[j].0, documents[j].1)
        }),
{
    let b = content_of(text, images, documents)->Blocks_0;
    assert forall|i: int| 0 <= i < images.len() implies b[1 + i] == BlockModel::Image(images[i].0, images[i].1) by {
        assert(b[1 + i] == image_block(images[i]));
    }
    assert forall|j: int| 0 <= j < documents.len()
        implies b[1 + images.len() + j] == BlockModel::Document(documents[j].0, documents[j].1) by {
        assert(b[1 + images.len() + j] == document_block(documents[j]));
    }
}

/// A message without attachments goes out as plain text: stored lists that
/// are absent, empty, unreadable or hold only malformed entries count as none.
pub proof fn lemma_plain_text_without_attachments(
    role: Seq<char>,
    text: Seq<char>,
    images: Option<Seq<char>>,
    documents: Option<Seq<char>>,
)
    requires
        stored_sources(images).len() == 0,
        stored_sources(documents).len() == 0,
    ensures
        wire_message_of(role, text, images, documents) == (role, ContentModel::Text(text)),
{
}

} // verus!
