//! The renderer: the page of a source file, from its blocks.
//!
//! The markup is written by the `build_html` crate. Two functions of this
//! module call it; what they claim of it is stated in their contracts and is
//! not proved.

use crate::extract::{block_views, BlockText, DocBlock};
use crate::paths::{display_name, shown_name};
use crate::text::{chars_of, push_all, push_str, string_of};
use build_html::{Html, HtmlChild, HtmlContainer, HtmlElement, HtmlPage, HtmlTag};
use vstd::prelude::*;
use vstd::string::StringExecFns;

verus! {

/// The elements that a page is made of.
#[derive(Debug, Clone, Copy, PartialEq, Eq)]
pub enum Tag {
    Div,
    Heading1,
    Heading2,
    Paragraph,
    Preformatted,
    Code,
}

/// The name of an element in the markup.
pub open spec fn tag_name(tag: Tag) -> Seq<char> {
    match tag {
        Tag::Div => "div"@,
        Tag::Heading1 => "h1"@,
        Tag::Heading2 => "h2"@,
        Tag::Paragraph => "p"@,
        Tag::Preformatted => "pre"@,
        Tag::Code => "code"@,
    }
}

/// The values of a sequence of attributes, element by element.
pub open spec fn pair_views(attributes: Seq<(String, String)>) -> Seq<(Seq<char>, Seq<char>)> {
    Seq::new(attributes.len(), |i: int| (attributes[i].0@, attributes[i].1@))
}

/// The attributes as they stand in a tag: each after a space, its value in
/// double quotes.
pub open spec fn attributes_text(attributes: Seq<(Seq<char>, Seq<char>)>) -> Seq<char>
    decreases attributes.len(),
{
    if attributes.len() == 0 {
        Seq::empty()
    } else {
        attributes_text(attributes.drop_last()) + " "@ + attributes.last().0 + "=\""@
            + attributes.last().1 + "\""@
    }
}

/// An element with the given attributes around the given content.
pub open spec fn element_text(
    tag: Tag,
    attributes: Seq<(Seq<char>, Seq<char>)>,
    content: Seq<char>,
) -> Seq<char> {
    "<"@ + tag_name(tag) + attributes_text(attributes) + ">"@ + content + "</"@ + tag_name(tag)
        + ">"@
}

/// What stands in the head of a page, apart from its title.
pub struct HeadText {
    pub style: Seq<char>,
    pub stylesheet: Seq<char>,
    pub script_link: Seq<char>,
    pub viewport: Seq<(Seq<char>, Seq<char>)>,
    pub description: Seq<(Seq<char>, Seq<char>)>,
    pub script: Seq<char>,
}

/// A whole page: the document type, the head with the title, the style, the
/// link to a style sheet, the link to a script, two `meta` tags and a script,
/// and the body.
pub open spec fn document_text(title: Seq<char>, head: HeadText, body: Seq<char>) -> Seq<char> {
    "<!DOCTYPE html><html><head>"@ + "<title>"@ + title + "</title>"@ + "<style>"@ + head.style
        + "</style>"@ + "<link href=\""@ + head.stylesheet + "\" rel=\"stylesheet\">"@
        + "<script src=\""@ + head.script_link + "\"></script>"@ + "<meta"@ + attributes_text(
        head.viewport,
    ) + ">"@ + "<meta"@ + attributes_text(head.description) + ">"@ + "<script>"@ + head.script
        + "</script>"@ + "</head><body>"@ + body + "</body></html>"@
}

/// What stands in the head of a page, apart from its title.
pub struct Head {
    pub style: String,
    pub stylesheet: String,
    pub script_link: String,
    pub viewport: Vec<(String, String)>,
    pub description: Vec<(String, String)>,
    pub script: String,
}

impl View for Head {
    type V = HeadText;

    open spec fn view(&self) -> HeadText {
        HeadText {
            style: self.style@,
            stylesheet: self.stylesheet@,
            script_link: self.script_link@,
            viewport: pair_views(self.viewport@),
            description: pair_views(self.description@),
            script: self.script@,
        }
    }
}

/// The markup of one element with text content.
///
/// Trusted: builds a `build_html::HtmlElement` with one raw child and calls
/// its `to_html_string`. That function writes the opening tag with each
/// attribute as ` key="value"`, the children as they are, and the closing
/// tag; it escapes nothing. An element with a child is never written in the
/// short form that ends in `/>`.
#[verifier::external_body]
fn element_html(tag: Tag, attributes: &Vec<(String, String)>, content: &str) -> (html: String)
    ensures
        html@ == element_text(tag, pair_views(attributes@), content@),
{
    let tag = match tag {
        Tag::Div => HtmlTag::Div,
        Tag::Heading1 => HtmlTag::Heading1,
        Tag::Heading2 => HtmlTag::Heading2,
        Tag::Paragraph => HtmlTag::ParagraphText,
        Tag::Preformatted => HtmlTag::PreformattedText,
        Tag::Code => HtmlTag::CodeText,
    };
    let children = vec![HtmlChild::Raw(content.to_owned())];
    HtmlElement { tag, attributes: attributes.clone(), children }.to_html_string()
}

/// The markup of a whole page.
///
/// Trusted: builds a `build_html::HtmlPage` and calls its `to_html_string`.
/// The page is an HTML5 document; `with_title`, `with_style`,
/// `with_stylesheet`, `with_script_link`, `with_meta` and
/// `with_script_literal` each append one tag to the head, in the order of
/// the calls, and `with_raw` appends its argument to the body unchanged.
#[verifier::external_body]
fn document_html(title: &str, head: &Head, body: &str) -> (html: String)
    ensures
        html@ == document_text(title@, head@, body@),
{
    HtmlPage::new()
        .with_title(title)
        .with_style(&head.style)
        .with_stylesheet(&head.stylesheet)
        .with_script_link(&head.script_link)
        .with_meta(head.viewport.clone())
        .with_meta(head.description.clone())
        .with_script_literal(&head.script)
        .with_raw(body)
        .to_html_string()
}

/// The style of a page.
pub open spec fn page_style_text() -> Seq<char> {
    "body{font-family:sans-serif;margin:0;background:#0d1117;color:#c9d1d9}.container{max-width:60rem;margin:0 auto;padding:2rem}h1{border-bottom:1px solid #30363d;padding-bottom:.5rem}h2{margin-top:2rem}.comment{line-height:1.6}pre{border-radius:6px;overflow-x:auto}"@
}

/// The style of a page.
pub fn page_style() -> (style: &'static str)
    ensures
        style@ == page_style_text(),
{
    "body{font-family:sans-serif;margin:0;background:#0d1117;color:#c9d1d9}.container{max-width:60rem;margin:0 auto;padding:2rem}h1{border-bottom:1px solid #30363d;padding-bottom:.5rem}h2{margin-top:2rem}.comment{line-height:1.6}pre{border-radius:6px;overflow-x:auto}"
}

/// The one attribute `class`, with the given value.
pub open spec fn class_attribute(class: Seq<char>) -> Seq<(Seq<char>, Seq<char>)> {
    seq![("class"@, class)]
}

/// The two attributes of a `meta` tag that gives `content` under `name`.
pub open spec fn meta_attributes(name: Seq<char>, content: Seq<char>) -> Seq<
    (Seq<char>, Seq<char>),
> {
    seq![("name"@, name), ("content"@, content)]
}

/// The head of the page for a file that is shown under `name`.
pub open spec fn head_text(name: Seq<char>) -> HeadText {
    HeadText {
        style: page_style_text(),
        stylesheet: "https://cdnjs.cloudflare.com/ajax/libs/highlight.js/11.9.0/styles/github-dark.min.css"@,
        script_link: "https://cdnjs.cloudflare.com/ajax/libs/highlight.js/11.9.0/highlight.min.js"@,
        viewport: meta_attributes("viewport"@, "width=device-width, initial-scale=1.0"@),
        description: meta_attributes("description"@, "Documentation for "@ + name),
        script: "hljs.highlightAll();"@,
    }
}

/// The markup of one block. A block with code is a heading, the summary as
/// a paragraph of class `comment`, and the code in a `pre` and a `code`
/// element; the summary of a file is the paragraph alone.
pub open spec fn block_text(block: BlockText) -> Seq<char> {
    match block.code {
        Some(code) => element_text(Tag::Heading2, Seq::empty(), block.heading) + element_text(
            Tag::Paragraph,
            class_attribute("comment"@),
            block.summary,
        ) + element_text(
            Tag::Preformatted,
            Seq::empty(),
            element_text(Tag::Code, Seq::empty(), code),
        ),
        None => element_text(Tag::Paragraph, class_attribute("comment"@), block.summary),
    }
}

/// The markup of the blocks, one after the other.
pub open spec fn blocks_text(blocks: Seq<BlockText>) -> Seq<char>
    decreases blocks.len(),
{
    if blocks.len() == 0 {
        Seq::empty()
    } else {
        blocks_text(blocks.drop_last()) + block_text(blocks.last())
    }
}

/// The page of the file at `path` with the given blocks: the title names the
/// file, and the body is one container that holds the name of the file as
/// its heading and then the blocks in their order.
pub open spec fn page_text(path: Seq<char>, blocks: Seq<BlockText>) -> Seq<char> {
    let name = display_name(path);
    document_text(
        name + " - VexDoc"@,
        head_text(name),
        element_text(
            Tag::Div,
            class_attribute("container"@),
            element_text(Tag::Heading1, Seq::empty(), name) + blocks_text(blocks),
        ),
    )
}

/// The one attribute `class`, with the given value.
fn class_of(class: &str) -> (attributes: Vec<(String, String)>)
    ensures
        pair_views(attributes@) == class_attribute(class@),
{
    let mut attributes: Vec<(String, String)> = Vec::new();
    attributes.push(("class".to_owned(), class.to_owned()));
    assert(pair_views(attributes@) =~= class_attribute(class@));
    attributes
}

/// The two attributes of a `meta` tag that gives `content` under `name`.
fn meta_of(name: &str, content: &str) -> (attributes: Vec<(String, String)>)
    ensures
        pair_views(attributes@) == meta_attributes(name@, content@),
{
    let mut attributes: Vec<(String, String)> = Vec::new();
    attributes.push(("name".to_owned(), name.to_owned()));
    attributes.push(("content".to_owned(), content.to_owned()));
    assert(pair_views(attributes@) =~= meta_attributes(name@, content@));
    attributes
}

/// No attributes.
fn no_attributes() -> (attributes: Vec<(String, String)>)
    ensures
        pair_views(attributes@) == Seq::<(Seq<char>, Seq<char>)>::empty(),
{
    let attributes: Vec<(String, String)> = Vec::new();
    assert(pair_views(attributes@) =~= Seq::<(Seq<char>, Seq<char>)>::empty());
    attributes
}

/// The markup of one block.
pub fn block_html(block: &DocBlock) -> (html: String)
    ensures
        html@ == block_text(block@),
{
    let plain = no_attributes();
    let comment = class_of("comment");
    let summary = element_html(Tag::Paragraph, &comment, block.summary.as_str());
    match &block.code {
        Some(code) => {
            let mut html = element_html(Tag::Heading2, &plain, block.heading.as_str());
            html.append(summary.as_str());
            let inner = element_html(Tag::Code, &plain, code.as_str());
            let outer = element_html(Tag::Preformatted, &plain, inner.as_str());
            html.append(outer.as_str());
            html
        },
        None => summary,
    }
}

/// The head of the page for a file that is shown under `name`.
pub fn doc_boilerplate_memo(name: &str) -> (head: Head)
    ensures
        head@ == head_text(name@),
{
    let mut about = "Documentation for ".to_owned();
    about.append(name);
    Head {
        style: page_style().to_owned(),
        stylesheet: "https://cdnjs.cloudflare.com/ajax/libs/highlight.js/11.9.0/styles/github-dark.min.css".to_owned(),
        script_link: "https://cdnjs.cloudflare.com/ajax/libs/highlight.js/11.9.0/highlight.min.js".to_owned(),
        viewport: meta_of("viewport", "width=device-width, initial-scale=1.0"),
        description: meta_of("description", about.as_str()),
        script: "hljs.highlightAll();".to_owned(),
    }
}

/// The page of the file at `path`, with the given blocks in their order.
pub fn render(path: &str, blocks: &Vec<DocBlock>) -> (html: String)
    ensures
        html@ == page_text(path@, block_views(blocks@)),
{
    let ghost all = block_views(blocks@);
    let path_chars = chars_of(path);
    let name_chars = shown_name(&path_chars);
    let name = string_of(&name_chars);
    let plain = no_attributes();
    let mut inner = element_html(Tag::Heading1, &plain, name.as_str());
    let ghost top = inner@;
    let mut i: usize = 0;
    proof {
        assert(all.take(0) =~= Seq::<BlockText>::empty());
        assert(inner@ =~= top + blocks_text(all.take(0)));
    }
    while i < blocks.len()
        invariant
            i <= blocks.len(),
            all == block_views(blocks@),
            inner@ == top + blocks_text(all.take(i as int)),
        decreases blocks.len() - i,
    {
        let part = block_html(&blocks[i]);
        inner.append(part.as_str());
        proof {
            assert(all.take(i + 1).drop_last() =~= all.take(i as int));
            assert(all.take(i + 1).last() == blocks@[i as int]@);
            assert(inner@ =~= top + blocks_text(all.take(i + 1)));
        }
        i += 1;
    }
    proof {
        assert(all.take(all.len() as int) =~= all);
    }
    let container = class_of("container");
    let body = element_html(Tag::Div, &container, inner.as_str());
    let mut title: Vec<char> = Vec::new();
    push_all(&mut title, &name_chars);
    push_str(&mut title, " - VexDoc");
    let title = string_of(&title);
    let head = doc_boilerplate_memo(name.as_str());
    document_html(title.as_str(), &head, body.as_str())
}

} // verus!
