//! Drawing an image from a structured prompt.
use vstd::prelude::*;
use crate::encoding::{base64_read, decode, hex_digit, hex_of};
use crate::json::{
    integer_json, members_view, no_members, object, put, text, whole, Json, JsonView,
};
use crate::parsing::{json_read, json_written, parse_and_write};
use crate::random::{no_source, random_bytes, without_source};
use crate::text::{
    join, join_with, opt_view, quote, quoted, same, strip_back, trim, trim_back, trimmed,
    views, views_push,
};
use crate::{said, PermissionLevel, ToolResult};

verus! {

/// The default image model when none is named.
pub const DEFAULT_IMAGE_MODEL: &'static str = "gpt-image-1";

/// The size used when neither an explicit size nor an aspect ratio is given.
pub const DEFAULT_SIZE: &'static str = "1024x1024";

/// The base an account falls back to when it configures none.
pub const DEFAULT_OPENAI_BASE: &'static str = "https://api.openai.com/v1";

pub struct GenerateImageTool;

impl GenerateImageTool {
    pub fn name(&self) -> (out: &'static str)
        ensures
            out@ == "generate_image"@,
    {
        "generate_image"
    }

    /// Writes a file and spends on a provider; the same level as a write.
    pub fn permission_level(&self) -> (out: PermissionLevel)
        ensures
            out == PermissionLevel::Write,
    {
        PermissionLevel::Write
    }
}

/// What the tool's caller gives.
#[derive(Debug)]
pub struct GenerateInput {
    /// The main subject of the image.
    pub subject: Option<String>,
    /// What the subject is doing.
    pub action: Option<String>,
    /// The setting around the subject.
    pub scene: Option<String>,
    /// How the frame is composed.
    pub composition: Option<String>,
    /// The lighting of the scene.
    pub lighting: Option<String>,
    /// The visual style.
    pub style: Option<String>,
    /// Text that should appear in the image.
    pub text: Option<String>,
    /// Changes to make when editing an input image.
    pub changes: Option<String>,
    /// The aspect ratio, for example `16:9`. Mapped to a size when no explicit
    /// `image_size` is given.
    pub aspect_ratio: Option<String>,
    /// An explicit size, for example `1024x1024`. Wins over `aspect_ratio`.
    pub image_size: Option<String>,
    /// A local path or base64 image to edit rather than generate from scratch.
    pub input: Option<String>,
    /// The account (provider) to use. Defaults to the active one.
    pub provider: Option<String>,
    /// The image model to ask. Defaults to `gpt-image-1`.
    pub model: Option<String>,
}

impl Default for GenerateInput {
    fn default() -> (input: Self)
        ensures
            input == (GenerateInput {
                subject: None,
                action: None,
                scene: None,
                composition: None,
                lighting: None,
                style: None,
                text: None,
                changes: None,
                aspect_ratio: None,
                image_size: None,
                input: None,
                provider: None,
                model: None,
            }),
    {
        GenerateInput {
            subject: None,
            action: None,
            scene: None,
            composition: None,
            lighting: None,
            style: None,
            text: None,
            changes: None,
            aspect_ratio: None,
            image_size: None,
            input: None,
            provider: None,
            model: None,
        }
    }
}

/// The labelled line of a field, where the field says anything.
pub open spec fn field_line(label: Seq<char>, value: Option<Seq<char>>) -> Seq<Seq<char>> {
    match value {
        Some(v) => if trimmed(v).len() > 0 {
            seq![label + ": "@ + trimmed(v)]
        } else {
            seq![]
        },
        None => seq![],
    }
}

/// The lines of a prompt: only the fields that were given, each on its own
/// labelled line, so the model reads an ordered brief rather than a blob.
pub open spec fn prompt_lines(i: GenerateInput) -> Seq<Seq<char>> {
    field_line("Subject"@, opt_view(i.subject)) + field_line("Action"@, opt_view(i.action))
        + field_line("Scene"@, opt_view(i.scene)) + field_line(
        "Composition"@,
        opt_view(i.composition),
    ) + field_line("Lighting"@, opt_view(i.lighting)) + field_line("Style"@, opt_view(i.style))
        + field_line("Text"@, opt_view(i.text)) + field_line("Changes"@, opt_view(i.changes))
}

fn push_field(lines: &mut Vec<String>, label: &str, value: &Option<String>)
    ensures
        views(final(lines)@) == views(old(lines)@) + field_line(label@, opt_view(*value)),
{
    broadcast use views_push;

    let ghost before = views(lines@);
    assert(before + Seq::<Seq<char>>::empty() =~= before);
    if let Some(v) = value {
        let said = trim(v);
        if !said.as_str().is_empty() {
            let mut line = label.to_string();
            line.push_str(": ");
            line.push_str(&said);
            lines.push(line);
            assert(before.push(line@) =~= before + seq![line@]);
        }
    }
}

/// Build one prompt string from the structured fields.
pub fn compose_prompt(input: &GenerateInput) -> (out: String)
    ensures
        out@ == join(prompt_lines(*input), "\n"@),
{
    let mut lines: Vec<String> = Vec::new();
    assert(views(lines@) =~= seq![]);
    push_field(&mut lines, "Subject", &input.subject);
    assert(views(lines@) =~= field_line("Subject"@, opt_view(input.subject)));
    push_field(&mut lines, "Action", &input.action);
    push_field(&mut lines, "Scene", &input.scene);
    push_field(&mut lines, "Composition", &input.composition);
    push_field(&mut lines, "Lighting", &input.lighting);
    push_field(&mut lines, "Style", &input.style);
    push_field(&mut lines, "Text", &input.text);
    push_field(&mut lines, "Changes", &input.changes);
    join_with(&lines, "\n")
}

/// What a prompt that says nothing is answered with.
pub fn empty_prompt() -> (r: ToolResult)
    ensures
        r@ == said(
            "give at least one prompt field: subject, action, scene, style, text, or changes"@,
            true,
        ),
{
    ToolResult::error(
        "give at least one prompt field: subject, action, scene, style, text, or changes".to_string(),
    )
}

/// The size to request: an explicit size wins, then an aspect ratio mapped to
/// one, then the default square.
pub open spec fn size_for(aspect_ratio: Option<Seq<char>>, image_size: Option<Seq<char>>) -> Seq<
    char,
> {
    if image_size matches Some(s) && trimmed(s).len() > 0 {
        trimmed(image_size->Some_0)
    } else {
        match aspect_ratio {
            Some(r) => if trimmed(r) == "16:9"@ {
                "1792x1024"@
            } else if trimmed(r) == "9:16"@ {
                "1024x1792"@
            } else if trimmed(r) == "3:2"@ {
                "1536x1024"@
            } else if trimmed(r) == "2:3"@ {
                "1024x1536"@
            } else {
                DEFAULT_SIZE@
            },
            None => DEFAULT_SIZE@,
        }
    }
}

/// The size to request.
pub fn resolve_size(aspect_ratio: &Option<String>, image_size: &Option<String>) -> (out: String)
    ensures
        out@ == size_for(opt_view(*aspect_ratio), opt_view(*image_size)),
{
    if let Some(size) = image_size {
        let size = trim(size);
        if !size.as_str().is_empty() {
            return size;
        }
    }
    if let Some(ratio) = aspect_ratio {
        let ratio = trim(ratio);
        if same(&ratio, "16:9") {
            return "1792x1024".to_string();
        }
        if same(&ratio, "9:16") {
            return "1024x1792".to_string();
        }
        if same(&ratio, "3:2") {
            return "1536x1024".to_string();
        }
        if same(&ratio, "2:3") {
            return "1024x1536".to_string();
        }
    }
    DEFAULT_SIZE.to_string()
}

/// What a request is made of.
#[derive(Debug)]
pub struct ImageRequest {
    pub url: String,
    pub model: String,
    pub prompt: String,
    pub size: String,
}

/// What an [`ImageRequest`] says.
#[verifier::ext_equal]
pub struct RequestView {
    pub url: Seq<char>,
    pub model: Seq<char>,
    pub prompt: Seq<char>,
    pub size: Seq<char>,
}

impl View for ImageRequest {
    type V = RequestView;

    open spec fn view(&self) -> RequestView {
        RequestView {
            url: self.url@,
            model: self.model@,
            prompt: self.prompt@,
            size: self.size@,
        }
    }
}

/// A text, or another where there is none.
pub open spec fn or_else(s: Option<Seq<char>>, other: Seq<char>) -> Seq<char> {
    match s {
        Some(s) => s,
        None => other,
    }
}

/// The address a request goes to: an edit when there is an image to edit, a
/// generation otherwise.
pub open spec fn endpoint(base: Option<Seq<char>>, edits: bool) -> Seq<char> {
    strip_back(or_else(base, DEFAULT_OPENAI_BASE@), '/') + (if edits {
        "/images/edits"@
    } else {
        "/images/generations"@
    })
}

/// The request that the tool's input makes; none where it says nothing. `base` is
/// the address that the account configures.
pub open spec fn request_of(i: GenerateInput, base: Option<Seq<char>>) -> Option<RequestView> {
    let prompt = join(prompt_lines(i), "\n"@);
    if prompt.len() == 0 {
        None
    } else {
        Some(
            RequestView {
                url: endpoint(base, i.input is Some),
                model: or_else(opt_view(i.model), DEFAULT_IMAGE_MODEL@),
                prompt,
                size: size_for(opt_view(i.aspect_ratio), opt_view(i.image_size)),
            },
        )
    }
}

/// Make the request, or say that the input asks for nothing.
pub fn build_request(input: &GenerateInput, base: &Option<String>) -> (r: Result<
    ImageRequest,
    ToolResult,
>)
    ensures
        match r {
            Ok(q) => request_of(*input, opt_view(*base)) == Some(q@),
            Err(e) => request_of(*input, opt_view(*base)) is None && e@ == said(
                "give at least one prompt field: subject, action, scene, style, text, or changes"@,
                true,
            ),
        },
{
    let prompt = compose_prompt(input);
    if prompt.as_str().is_empty() {
        return Err(empty_prompt());
    }
    let whole_base = match base {
        Some(b) => b.clone(),
        None => DEFAULT_OPENAI_BASE.to_string(),
    };
    let mut url = trim_back(&whole_base, '/');
    if input.input.is_some() {
        url.push_str("/images/edits");
    } else {
        url.push_str("/images/generations");
    }
    let model = match &input.model {
        Some(m) => m.clone(),
        None => DEFAULT_IMAGE_MODEL.to_string(),
    };
    let size = resolve_size(&input.aspect_ratio, &input.image_size);
    Ok(ImageRequest { url, model, prompt, size })
}

/// What an account without a key is answered with.
pub fn no_key(account: &str) -> (r: ToolResult)
    ensures
        r@ == said(
            "account "@ + quoted(account@)
                + " has no API key; configure one or name another provider"@,
            true,
        ),
{
    let mut out = "account ".to_string();
    let name = quote(account);
    out.push_str(&name);
    out.push_str(" has no API key; configure one or name another provider");
    ToolResult::error(out)
}

/// The JSON body for a from-scratch generation.
pub open spec fn body_json(model: Seq<char>, prompt: Seq<char>, size: Seq<char>) -> JsonView {
    JsonView::Object(
        seq![
            ("model"@, JsonView::Text(model)),
            ("prompt"@, JsonView::Text(prompt)),
            ("size"@, JsonView::Text(size)),
            ("n"@, integer_json(1)),
            ("response_format"@, JsonView::Text("b64_json"@)),
        ],
    )
}

/// The JSON body for a from-scratch generation.
pub fn generations_body(model: &str, prompt: &str, size: &str) -> (out: Json)
    ensures
        out@ == body_json(model@, prompt@, size@),
{
    let mut members = no_members();
    put(&mut members, "model", text(model));
    put(&mut members, "prompt", text(prompt));
    put(&mut members, "size", text(size));
    put(&mut members, "n", whole(1));
    put(&mut members, "response_format", text("b64_json"));
    assert(members_view(members@) =~= body_json(model@, prompt@, size@)->Object_0);
    object(members)
}

/// The image bytes come back one of two ways, so both are carried.
#[derive(Debug)]
pub enum ImagePayload {
    Base64(String),
    Url(String),
}

/// What an [`ImagePayload`] holds.
#[verifier::ext_equal]
pub enum PayloadView {
    Base64(Seq<char>),
    Url(Seq<char>),
}

impl View for ImagePayload {
    type V = PayloadView;

    open spec fn view(&self) -> PayloadView {
        match *self {
            ImagePayload::Base64(s) => PayloadView::Base64(s@),
            ImagePayload::Url(s) => PayloadView::Url(s@),
        }
    }
}

/// The first image of a response.
pub open spec fn first_image(response: JsonView) -> Option<JsonView> {
    match response.get("data"@) {
        Some(JsonView::Array(items)) => if items.len() > 0 {
            Some(items[0])
        } else {
            None
        },
        _ => None,
    }
}

/// The image of a response, or why there is none. `shown` is the response's text.
pub open spec fn image_of(response: JsonView, shown: Seq<char>) -> Result<PayloadView, Seq<char>> {
    match first_image(response) {
        None => Err("the provider returned no image: "@ + shown),
        Some(first) => match first.text_of("b64_json"@) {
            Some(b64) => Ok(PayloadView::Base64(b64)),
            None => match first.text_of("url"@) {
                Some(url) => Ok(PayloadView::Url(url)),
                None => Err("the provider returned no image data: "@ + shown),
            },
        },
    }
}

/// Pull the image out of a provider's response, error surfaced not swallowed.
pub fn image_from_response(response: &Json, shown: &str) -> (r: Result<ImagePayload, String>)
    ensures
        match r {
            Ok(p) => image_of(response@, shown@) == Ok::<PayloadView, Seq<char>>(p@),
            Err(e) => image_of(response@, shown@) == Err::<PayloadView, Seq<char>>(e@),
        },
{
    if let Some(data) = response.get("data") {
        if let Json::Array(items) = data {
            proof {
                crate::json::array_view(*items);
            }
            if items.len() > 0 {
                let first = &items[0];
                assert(first_image(response@) == Some(first@));
                if let Some(b64) = first.text_of("b64_json") {
                    return Ok(ImagePayload::Base64(b64));
                }
                if let Some(url) = first.text_of("url") {
                    return Ok(ImagePayload::Url(url));
                }
                let mut e = "the provider returned no image data: ".to_string();
                e.push_str(shown);
                return Err(e);
            }
        }
    }
    let mut e = "the provider returned no image: ".to_string();
    e.push_str(shown);
    Err(e)
}

/// The image of a reply's body, given what the body reads as, or why there is none.
pub open spec fn image_in(read: Result<JsonView, Seq<char>>) -> Result<PayloadView, Seq<char>> {
    match read {
        Ok(response) => image_of(response, json_written(response)),
        Err(cause) => Err("the provider's reply was not JSON: "@ + cause),
    }
}

/// Pull the image out of a reply's body.
pub fn image_from_body(body: &str) -> (r: Result<ImagePayload, String>)
    ensures
        match r {
            Ok(p) => image_in(json_read(body@)) == Ok::<PayloadView, Seq<char>>(p@),
            Err(e) => image_in(json_read(body@)) == Err::<PayloadView, Seq<char>>(e@),
        },
{
    match parse_and_write(body) {
        Ok((response, line)) => image_from_response(&response, &line),
        Err(cause) => {
            let mut e = "the provider's reply was not JSON: ".to_string();
            e.push_str(&cause);
            Err(e)
        },
    }
}

/// What a reply's status and body come to: the body where the request succeeded.
pub fn accept_reply(success: bool, status: &str, body: &str) -> (r: Result<String, String>)
    ensures
        match r {
            Ok(b) => success && b@ == body@,
            Err(e) => !success && e@ == "the image provider returned "@ + status@ + ": "@ + body@,
        },
{
    if success {
        return Ok(body.to_string());
    }
    let mut e = "the image provider returned ".to_string();
    e.push_str(status);
    e.push_str(": ");
    e.push_str(body);
    Err(e)
}

/// Where the image to edit comes from.
#[derive(Debug)]
pub enum InputSource {
    /// The file that the input names, as it was read.
    File(Result<Vec<u8>, String>),
    /// The input names no file.
    Inline,
}

/// The bytes of the image to edit, whether the input is a file path or a base64
/// string.
pub fn input_image(input: &str, source: InputSource) -> (r: Result<Vec<u8>, String>)
    ensures
        match source {
            InputSource::File(Ok(bytes)) => (r matches Ok(b) && b@ == bytes@),
            InputSource::File(Err(e)) => (r matches Err(out) && out@ == input@ + ": "@ + e@),
            InputSource::Inline => match (base64_read(input@), r) {
                (Ok(bytes), Ok(b)) => b@ == bytes,
                (Err(cause), Err(e)) => e@ == "input was neither a readable path nor base64: "@
                    + cause,
                _ => false,
            },
        },
{
    match source {
        InputSource::File(Ok(bytes)) => Ok(bytes),
        InputSource::File(Err(cause)) => {
            let mut e = input.to_string();
            e.push_str(": ");
            e.push_str(&cause);
            Err(e)
        },
        InputSource::Inline => match decode(input) {
            Ok(bytes) => Ok(bytes),
            Err(cause) => {
                let mut e = "input was neither a readable path nor base64: ".to_string();
                e.push_str(&cause);
                Err(e)
            },
        },
    }
}

/// The bytes of an image that came back as base64.
pub fn inline_image(data: &str) -> (r: Result<Vec<u8>, String>)
    ensures
        match (base64_read(data@), r) {
            (Ok(bytes), Ok(b)) => b@ == bytes,
            (Err(cause), Err(e)) => e@ == "the provider's image was not valid base64: "@ + cause,
            _ => false,
        },
{
    match decode(data) {
        Ok(bytes) => Ok(bytes),
        Err(cause) => {
            let mut e = "the provider's image was not valid base64: ".to_string();
            e.push_str(&cause);
            Err(e)
        },
    }
}

/// Whether a text has the shape of an id: five groups of lower-case hexadecimal
/// digits with a hyphen between, of eight, four, four, four and twelve.
pub open spec fn id_shaped(id: Seq<char>) -> bool {
    &&& id.len() == 36
    &&& forall|i: int|
        0 <= i < 36 ==> if i == 8 || i == 13 || i == 18 || i == 23 {
            #[trigger] id[i] == '-'
        } else {
            hex_digit(id[i])
        }
}

/// How many random bytes an id is made of.
pub const ID_BYTES: usize = 16;

/// Random bytes with the marks of a random id: its version and its variant.
pub open spec fn marked(bytes: Seq<u8>) -> Seq<u8> {
    bytes.update(6, (bytes[6] % 16 + 0x40) as u8).update(8, (bytes[8] % 64 + 0x80) as u8)
}

/// The id that some random bytes make, hyphenated and in lower case.
pub open spec fn id_text(bytes: Seq<u8>) -> Seq<char> {
    let digits = hex_of(marked(bytes));
    digits.subrange(0, 8) + "-"@ + digits.subrange(8, 12) + "-"@ + digits.subrange(12, 16) + "-"@
        + digits.subrange(16, 20) + "-"@ + digits.subrange(20, 32)
}

/// `uuid::Builder::from_random_bytes`, and the display text of the id that it builds:
/// the bytes, marked as a random id, in lower-case hexadecimal digits with hyphens
/// between the groups.
#[verifier::external_body]
fn id_from(bytes: [u8; 16]) -> (id: String)
    ensures
        id@ == id_text(bytes@),
{
    uuid::Builder::from_random_bytes(bytes).into_uuid().to_string()
}

proof fn hex_of_digits(bytes: Seq<u8>)
    ensures
        hex_of(bytes).len() == 2 * bytes.len(),
        forall|i: int| 0 <= i < hex_of(bytes).len() ==> hex_digit(#[trigger] hex_of(bytes)[i]),
    decreases bytes.len(),
{
    if bytes.len() > 0 {
        hex_of_digits(bytes.drop_last());
    }
}

/// The id of some random bytes has the shape of an id.
pub proof fn an_id_is_shaped(bytes: Seq<u8>)
    requires
        bytes.len() == 16,
    ensures
        id_shaped(id_text(bytes)),
{
    reveal_strlit("-");
    hex_of_digits(marked(bytes));
}

/// The name of the file an image is written to.
pub open spec fn image_name(id: Seq<char>) -> Seq<char> {
    "mikmik-image-"@ + id + ".png"@
}

/// The name of the file an image is written to, given a fresh id.
pub fn image_file_name(id: &str) -> (out: String)
    ensures
        out@ == image_name(id@),
{
    let mut out = "mikmik-image-".to_string();
    out.push_str(id);
    out.push_str(".png");
    out
}

/// The name of the file an image is written to, given the random bytes of its id,
/// or why there is none.
pub open spec fn named_by(bytes: Result<Seq<u8>, Seq<char>>) -> Result<Seq<char>, Seq<char>> {
    match bytes {
        Ok(b) => Ok(image_name(id_text(b))),
        Err(cause) => Err(no_source(cause)),
    }
}

/// The name of the file an image is written to, given the random bytes of its id,
/// or why there is none.
pub fn file_name_from(bytes: Result<Vec<u8>, String>) -> (r: Result<String, String>)
    requires
        bytes matches Ok(b) ==> b@.len() == ID_BYTES,
    ensures
        match (bytes, r) {
            (Ok(b), Ok(out)) => named_by(Ok(b@)) == Ok::<Seq<char>, Seq<char>>(out@),
            (Err(cause), Err(e)) => named_by(Err(cause@)) == Err::<Seq<char>, Seq<char>>(e@),
            _ => false,
        },
{
    match bytes {
        Ok(b) => {
            let array: [u8; 16] = [
                b[0],
                b[1],
                b[2],
                b[3],
                b[4],
                b[5],
                b[6],
                b[7],
                b[8],
                b[9],
                b[10],
                b[11],
                b[12],
                b[13],
                b[14],
                b[15],
            ];
            assert(array@ =~= b@);
            Ok(image_file_name(&id_from(array)))
        },
        Err(cause) => Err(without_source(&cause)),
    }
}

/// A fresh name for the file an image is written to. Where the system has no random
/// bytes to give, there is none.
pub fn fresh_file_name() -> (r: Result<String, String>)
    ensures
        r matches Ok(out) ==> exists|id: Seq<char>| id_shaped(id) && out@ == #[trigger] image_name(
            id,
        ),
        r matches Ok(out) ==> exists|bytes: Seq<u8>|
            bytes.len() == ID_BYTES && out@ == image_name(#[trigger] id_text(bytes)),
        r matches Err(e) ==> exists|cause: Seq<char>| e@ == #[trigger] no_source(cause),
{
    let bytes = random_bytes(ID_BYTES);
    proof {
        if bytes is Ok {
            an_id_is_shaped(bytes->Ok_0@);
        }
    }
    file_name_from(bytes)
}

/// Each part of a prompt that is not blank has a line of its own under its name, and the
/// parts stand in their order.
pub proof fn a_prompt_has_its_parts_in_order(i: GenerateInput, a: Seq<Seq<char>>)
    requires
        a == seq![
            trimmed(i.subject->0@),
            trimmed(i.action->0@),
            trimmed(i.scene->0@),
            trimmed(i.composition->0@),
            trimmed(i.lighting->0@),
            trimmed(i.style->0@),
            trimmed(i.text->0@),
            trimmed(i.changes->0@),
        ],
        i.subject is Some && i.action is Some && i.scene is Some && i.composition is Some,
        i.lighting is Some && i.style is Some && i.text is Some && i.changes is Some,
        forall|k: int| 0 <= k < a.len() ==> (#[trigger] a[k]).len() > 0,
    ensures
        prompt_lines(i) == seq![
            "Subject"@ + ": "@ + a[0],
            "Action"@ + ": "@ + a[1],
            "Scene"@ + ": "@ + a[2],
            "Composition"@ + ": "@ + a[3],
            "Lighting"@ + ": "@ + a[4],
            "Style"@ + ": "@ + a[5],
            "Text"@ + ": "@ + a[6],
            "Changes"@ + ": "@ + a[7],
        ],
{
    assert(a[0].len() > 0 && a[1].len() > 0 && a[2].len() > 0 && a[3].len() > 0 && a[4].len() > 0
        && a[5].len() > 0 && a[6].len() > 0 && a[7].len() > 0);
    assert(prompt_lines(i) =~= seq![
        "Subject"@ + ": "@ + a[0],
        "Action"@ + ": "@ + a[1],
        "Scene"@ + ": "@ + a[2],
        "Composition"@ + ": "@ + a[3],
        "Lighting"@ + ": "@ + a[4],
        "Style"@ + ": "@ + a[5],
        "Text"@ + ": "@ + a[6],
        "Changes"@ + ": "@ + a[7],
    ]);
}

/// A part that is blank or not given has no line; a request is made where, and only
/// where, some part is given.
pub proof fn a_blank_part_has_no_line(
    label: Seq<char>,
    value: Option<Seq<char>>,
    i: GenerateInput,
    base: Option<Seq<char>>,
)
    ensures
        value is None || trimmed(value->0).len() == 0 <==> field_line(label, value).len() == 0,
        value is Some && trimmed(value->0).len() > 0 ==> field_line(label, value) == seq![
            label + ": "@ + trimmed(value->0),
        ],
        request_of(i, base) is None <==> join(prompt_lines(i), "\n"@).len() == 0,
        request_of(i, base) is Some ==> request_of(i, base)->0.prompt == join(
            prompt_lines(i),
            "\n"@,
        ),
{
}

/// A size that is given is the size asked for, whatever the ratio.
pub proof fn a_given_size_is_asked_for(ratio: Option<Seq<char>>, size: Seq<char>)
    requires
        trimmed(size).len() > 0,
    ensures
        size_for(ratio, Some(size)) == trimmed(size),
        size_for(ratio, None) == size_for(ratio, Some(seq![])),
{
    reveal_with_fuel(crate::text::trim_start, 2);
    reveal_with_fuel(crate::text::trim_end, 2);
}

/// An edit and a fresh image are asked for at different places of one provider.
pub proof fn an_edit_is_asked_for_elsewhere(base: Option<Seq<char>>)
    ensures
        endpoint(base, true) != endpoint(base, false),
{
    reveal_strlit("/images/edits");
    reveal_strlit("/images/generations");
    let root = strip_back(or_else(base, DEFAULT_OPENAI_BASE@), '/');
    assert(endpoint(base, true).len() == root.len() + 13);
    assert(endpoint(base, false).len() == root.len() + 19);
}

/// Each of the four ratios has its own size, wide where the ratio is wide and the same
/// turned where it is turned; any other has the default.
pub proof fn each_ratio_has_its_size(ratio: Seq<char>)
    ensures
        trimmed(ratio) == "16:9"@ ==> size_for(Some(ratio), None) == "1792x1024"@,
        trimmed(ratio) == "9:16"@ ==> size_for(Some(ratio), None) == "1024x1792"@,
        trimmed(ratio) == "3:2"@ ==> size_for(Some(ratio), None) == "1536x1024"@,
        trimmed(ratio) == "2:3"@ ==> size_for(Some(ratio), None) == "1024x1536"@,
        trimmed(ratio) != "16:9"@ && trimmed(ratio) != "9:16"@ && trimmed(ratio) != "3:2"@
            && trimmed(ratio) != "2:3"@ ==> size_for(Some(ratio), None) == size_for(None, None),
{
    reveal_strlit("16:9");
    reveal_strlit("9:16");
    reveal_strlit("3:2");
    reveal_strlit("2:3");
    assert("16:9"@[0] == '1' && "9:16"@[0] == '9' && "3:2"@[0] == '3' && "2:3"@[0] == '2');
}

/// The image is the first that the reply holds: its data where that is given, else where
/// it can be had; a reply without one is an error.
pub proof fn the_first_image_is_taken(response: JsonView, items: Seq<JsonView>, shown: Seq<char>)
    requires
        response.get("data"@) == Some(JsonView::Array(items)),
    ensures
        items.len() == 0 ==> image_of(response, shown) is Err,
        items.len() > 0 && items[0].text_of("b64_json"@) is Some ==> image_of(response, shown)
            == Ok::<PayloadView, Seq<char>>(
            PayloadView::Base64(items[0].text_of("b64_json"@)->0),
        ),
        items.len() > 0 && items[0].text_of("b64_json"@) is None && items[0].text_of(
            "url"@,
        ) is Some ==> image_of(response, shown) == Ok::<PayloadView, Seq<char>>(
            PayloadView::Url(items[0].text_of("url"@)->0),
        ),
        items.len() > 0 && items[0].text_of("b64_json"@) is None && items[0].text_of(
            "url"@,
        ) is None ==> image_of(response, shown) is Err,
{
}

} // verus!
