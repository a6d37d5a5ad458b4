//! Asking a vision model a question about a local image.
use vstd::prelude::*;
use crate::encoding::{base64_of, encode};
use crate::image_tools::{media_type_for, media_type_of};
use crate::text::{join, join_with, opt_view, views, views_push};
use crate::{said, PermissionLevel, ToolResult};

verus! {

pub struct InspectImageTool;

impl InspectImageTool {
    pub fn name(&self) -> (out: &'static str)
        ensures
            out@ == "inspect_image"@,
    {
        "inspect_image"
    }

    /// Reads a local file and sends it to a model; the same level as reading.
    pub fn permission_level(&self) -> (out: PermissionLevel)
        ensures
            out == PermissionLevel::ReadOnly,
    {
        PermissionLevel::ReadOnly
    }
}

/// One part of a message to a model, or of its reply.
#[derive(Debug)]
pub enum ContentBlock {
    /// An image, as base64 text of a media type.
    Image { media_type: String, data: String },
    Text { text: String },
    /// A part of another kind.
    Other,
}

/// What a [`ContentBlock`] holds.
#[verifier::ext_equal]
pub enum BlockView {
    Image { media_type: Seq<char>, data: Seq<char> },
    Text { text: Seq<char> },
    Other,
}

impl View for ContentBlock {
    type V = BlockView;

    open spec fn view(&self) -> BlockView {
        match *self {
            ContentBlock::Image { media_type, data } => BlockView::Image {
                media_type: media_type@,
                data: data@,
            },
            ContentBlock::Text { text } => BlockView::Text { text: text@ },
            ContentBlock::Other => BlockView::Other,
        }
    }
}

/// What some parts hold.
pub open spec fn block_views(v: Seq<ContentBlock>) -> Seq<BlockView> {
    Seq::new(v.len(), |i: int| v[i]@)
}

/// What a file that is no image is refused with.
pub open spec fn unsupported(path: Seq<char>) -> Seq<char> {
    path + ": unsupported image type; use png, jpeg, gif or webp"@
}

/// The media type of the image at a path, before it is read: a file that is no
/// image is refused without being sent anywhere.
pub fn check_type(path: &str) -> (r: Result<&'static str, String>)
    ensures
        match r {
            Ok(t) => media_type_of(path@) == Some(t@),
            Err(e) => media_type_of(path@) is None && e@ == unsupported(path@),
        },
{
    match media_type_for(path) {
        Some(t) => Ok(t),
        None => {
            let mut e = path.to_string();
            e.push_str(": unsupported image type; use png, jpeg, gif or webp");
            Err(e)
        },
    }
}

/// The message that pairs an image with a question, or why there is none. `read`
/// is what reading the file gave.
pub open spec fn message(
    path: Seq<char>,
    read: Result<Vec<u8>, String>,
    question: Seq<char>,
) -> Result<Seq<BlockView>, Seq<char>> {
    match media_type_of(path) {
        None => Err(unsupported(path)),
        Some(media_type) => match read {
            Ok(bytes) => Ok(
                seq![
                    BlockView::Image { media_type, data: base64_of(bytes@) },
                    BlockView::Text { text: question },
                ],
            ),
            Err(e) => Err(path + ": "@ + e@),
        },
    }
}

/// Pair an image with a question as one user message.
pub fn build_image_message(
    path: &str,
    read: &Result<Vec<u8>, String>,
    question: &str,
) -> (r: Result<Vec<ContentBlock>, String>)
    ensures
        match r {
            Ok(v) => message(path@, *read, question@) == Ok::<Seq<BlockView>, Seq<char>>(
                block_views(v@),
            ),
            Err(e) => message(path@, *read, question@) == Err::<Seq<BlockView>, Seq<char>>(
                e@,
            ),
        },
{
    let media_type = match check_type(path) {
        Ok(t) => t,
        Err(e) => {
            return Err(e);
        },
    };
    let bytes = match read {
        Ok(bytes) => bytes,
        Err(cause) => {
            let mut e = path.to_string();
            e.push_str(": ");
            e.push_str(cause);
            return Err(e);
        },
    };
    let data = encode(bytes);
    let mut out: Vec<ContentBlock> = Vec::new();
    out.push(ContentBlock::Image { media_type: media_type.to_string(), data });
    out.push(ContentBlock::Text { text: question.to_string() });
    assert(block_views(out@) =~= seq![
        BlockView::Image { media_type: media_type@, data: base64_of(bytes@) },
        BlockView::Text { text: question@ },
    ]);
    Ok(out)
}

/// The model to ask: the explicit one, else the advisor's, else the session's.
pub open spec fn model_to_ask(
    explicit: Option<Seq<char>>,
    advisor: Option<Seq<char>>,
    session: Seq<char>,
) -> Seq<char> {
    if explicit matches Some(m) && m.len() > 0 {
        explicit->Some_0
    } else if advisor matches Some(m) && m.len() > 0 {
        advisor->Some_0
    } else {
        session
    }
}

/// The model to ask: the explicit one, else the advisor's, else the session's.
pub fn resolve_model(explicit: &Option<String>, advisor: &Option<String>, session: &str) -> (out:
    String)
    ensures
        out@ == model_to_ask(opt_view(*explicit), opt_view(*advisor), session@),
{
    if let Some(m) = explicit {
        if !m.as_str().is_empty() {
            return m.clone();
        }
    }
    if let Some(m) = advisor {
        if !m.as_str().is_empty() {
            return m.clone();
        }
    }
    session.to_string()
}

/// The texts among some parts, in order.
pub open spec fn texts(blocks: Seq<BlockView>) -> Seq<Seq<char>>
    decreases blocks.len(),
{
    if blocks.len() == 0 {
        seq![]
    } else {
        match blocks.last() {
            BlockView::Text { text } => texts(blocks.drop_last()).push(text),
            _ => texts(blocks.drop_last()),
        }
    }
}

/// The text of a response, joining every text part.
pub fn text_of(content: &Vec<ContentBlock>) -> (out: String)
    ensures
        out@ == join(texts(block_views(content@)), "\n"@),
{
    broadcast use views_push;

    let ghost model = block_views(content@);
    let mut parts: Vec<String> = Vec::new();
    let mut i: usize = 0;
    assert(model.take(0) =~= seq![]);
    assert(views(parts@) =~= seq![]);
    while i < content.len()
        invariant
            i <= content@.len(),
            model == block_views(content@),
            views(parts@) == texts(model.take(i as int)),
        decreases content.len() - i,
    {
        assert(model.take(i + 1).drop_last() =~= model.take(i as int));
        assert(model.take(i + 1).last() == content@[i as int]@);
        if let ContentBlock::Text { text } = &content[i] {
            parts.push(text.clone());
        }
        i += 1;
    }
    assert(model.take(model.len() as int) =~= model);
    join_with(&parts, "\n")
}

/// Answer with what the model said, or that it failed.
pub fn inspected(reply: &Result<Vec<ContentBlock>, String>) -> (r: ToolResult)
    ensures
        r@ == (match *reply {
            Ok(content) => said(join(texts(block_views(content@)), "\n"@), false),
            Err(e) => said("the vision model failed: "@ + e@, true),
        }),
{
    match reply {
        Ok(content) => ToolResult::success(text_of(content)),
        Err(cause) => {
            let mut e = "the vision model failed: ".to_string();
            e.push_str(cause);
            ToolResult::error(e)
        },
    }
}

/// A file that is no image is refused whatever reading it gave.
pub proof fn no_image_no_message(
    path: Seq<char>,
    read: Result<Vec<u8>, String>,
    question: Seq<char>,
)
    requires
        media_type_of(path) is None,
    ensures
        message(path, read, question) == Err::<Seq<BlockView>, Seq<char>>(
            unsupported(path),
        ),
{
}

/// The texts of a reply are those of its text blocks, in order.
pub proof fn every_text_of_a_reply_is_read(blocks: Seq<BlockView>)
    ensures
        texts(blocks) == blocks.filter(|b: BlockView| b is Text).map_values(
            |b: BlockView| b->text,
        ),
    decreases blocks.len(),
{
    crate::text::kept_one_more(blocks, |b: BlockView| b is Text);
    if blocks.len() > 0 {
        every_text_of_a_reply_is_read(blocks.drop_last());
    }
    assert(texts(blocks) =~= blocks.filter(|b: BlockView| b is Text).map_values(
        |b: BlockView| b->text,
    ));
}

/// The model asked is the one named, else the advisor's, else the session's.
pub proof fn the_model_asked(explicit: Seq<char>, advisor: Seq<char>, session: Seq<char>)
    ensures
        explicit.len() > 0 ==> model_to_ask(Some(explicit), Some(advisor), session) == explicit,
        explicit.len() > 0 ==> model_to_ask(Some(explicit), None, session) == explicit,
        advisor.len() > 0 ==> model_to_ask(None, Some(advisor), session) == advisor,
        advisor.len() > 0 ==> model_to_ask(Some(seq![]), Some(advisor), session) == advisor,
        model_to_ask(None, None, session) == session,
        model_to_ask(Some(seq![]), Some(seq![]), session) == session,
{
}

} // verus!
