//! XML files, pretty-printed with two-space indentation inside a fenced
//! `xml` block.

use quick_xml::events::Event;
use quick_xml::reader::Reader;
use quick_xml::writer::Writer;

use vstd::prelude::*;

use crate::converter::{strip_bom, strip_bom_spec, ConversionOptions, ConversionResult, Converter};
use crate::error::{is_malformed, malformed, malformed_because, ConvertError};
use crate::text::{chars_of, is_blank, push_str, string_from_chars, trim_ws};
use crate::zip_io::{utf8_error_message, utf8_or_message, utf8_to_string};

verus! {

broadcast use vstd::string::group_string_axioms;

/// Converts XML files to pretty-printed fenced code blocks.
pub struct XmlConverter;

/// `quick_xml`'s writer.
#[verifier::external_type_specification]
#[verifier::external_body]
#[verifier::reject_recursive_types(W)]
pub struct ExXmlWriter<W>(Writer<W>);

/// `quick_xml`'s event, owned.
#[verifier::external_type_specification]
#[verifier::external_body]
pub struct ExXmlEvent<'a>(Event<'a>);

/// One step of reading: an event, the end of input, or a syntax error
/// with its message.
pub enum ReadStep {
    Event(Event<'static>),
    End,
    Failed(String),
}

/// The steps a reformatting reader gives for `xml`
/// (`Reader::from_str` with text trimmed at both ends, then
/// `Reader::read_event` until the end of input or the first error),
/// including the final `End` or `Failed` step.
pub uninterp spec fn trimmed_steps(xml: Seq<char>) -> Seq<ReadStep>;

/// The steps a reformatting reader has still to give.
pub uninterp spec fn trimmed_pending(r: Reader<&[u8]>) -> Seq<ReadStep>;

/// The events written so far by a writer, in order.
pub uninterp spec fn written_events(w: Writer<Vec<u8>>) -> Seq<Event<'static>>;

/// The message of the error that writing `e` after `written` gives, if any
/// (`Writer::write_event`).
pub uninterp spec fn write_failure(written: Seq<Event<'static>>, e: Event<'static>) -> Option<
    Seq<char>,
>;

/// The bytes an indenting writer holds after writing `events`
/// (`Writer::new_with_indent` with two spaces, `write_event` for each,
/// `into_inner`).
pub uninterp spec fn indented_xml(events: Seq<Event<'static>>) -> Seq<u8>;

/// Whether a step ends the reading.
pub open spec fn is_last_step(s: ReadStep) -> bool {
    s is End || s is Failed
}

/// A finished run of steps: non-empty, ending in its only last step.
pub open spec fn steps_finished(steps: Seq<ReadStep>) -> bool {
    &&& steps.len() > 0
    &&& is_last_step(steps.last())
    &&& forall|i: int| 0 <= i < steps.len() - 1 ==> !is_last_step(#[trigger] steps[i])
}

/// A reader over `input` that trims the whitespace around text
/// (`Reader::from_str` with `trim_text_start` and `trim_text_end`). Reading
/// stops at the end of the input or at the first error, so its steps are
/// finite and end in one last step.
#[verifier::external_body]
fn trimming_reader<'a>(input: &'a str) -> (r: Reader<&'a [u8]>)
    ensures
        trimmed_pending(r) == trimmed_steps(input@),
        steps_finished(trimmed_pending(r)),
{
    let mut reader = Reader::from_str(input);
    reader.config_mut().trim_text_start = true;
    reader.config_mut().trim_text_end = true;
    reader
}

/// Reads the next step (`Reader::read_event`, the event made owned).
#[verifier::external_body]
fn next_event(r: &mut Reader<&[u8]>) -> (s: ReadStep)
    requires
        trimmed_pending(*old(r)).len() > 0,
    ensures
        s == trimmed_pending(*old(r))[0],
        trimmed_pending(*final(r)) == trimmed_pending(*old(r)).drop_first(),
{
    match r.read_event() {
        Ok(Event::Eof) => ReadStep::End,
        Ok(e) => ReadStep::Event(e.into_owned()),
        Err(e) => ReadStep::Failed(e.to_string()),
    }
}

/// A writer indenting nested elements by two spaces
/// (`Writer::new_with_indent`); nothing is written yet.
#[verifier::external_body]
fn indenting_writer() -> (w: Writer<Vec<u8>>)
    ensures
        written_events(w) == Seq::<Event<'static>>::empty(),
{
    Writer::new_with_indent(Vec::new(), b' ', 2)
}

/// Writes one event (`Writer::write_event`), giving the error's message.
#[verifier::external_body]
fn write_event(w: &mut Writer<Vec<u8>>, e: Event<'static>) -> (r: Result<(), String>)
    ensures
        match write_failure(written_events(*old(w)), e) {
            Some(m) => r matches Err(m2) && m2@ == m,
            None => r is Ok && written_events(*final(w)) == written_events(*old(w)).push(e),
        },
{
    w.write_event(e).map_err(|e| e.to_string())
}

/// The bytes a writer has written (`Writer::into_inner`).
#[verifier::external_body]
fn written_bytes(w: Writer<Vec<u8>>) -> (v: Vec<u8>)
    ensures
        v@ == indented_xml(written_events(w)),
{
    w.into_inner()
}

/// Writing the events of `steps` after `written`: the events written up
/// to the end of input, or the reason of the first reading or writing
/// error.
pub open spec fn rewrite_steps(written: Seq<Event<'static>>, steps: Seq<ReadStep>) -> Result<
    Seq<Event<'static>>,
    Seq<char>,
>
    decreases steps.len(),
{
    if steps.len() == 0 {
        Ok(written)
    } else {
        match steps[0] {
            ReadStep::End => Ok(written),
            ReadStep::Failed(m) => Err("invalid XML: "@ + m@),
            ReadStep::Event(e) => match write_failure(written, e) {
                Some(m) => Err("failed to write XML event: "@ + m),
                None => rewrite_steps(written.push(e), steps.drop_first()),
            },
        }
    }
}

/// The re-written XML of `input`: every event read is written with
/// two-space indentation and the output decoded as UTF-8; or the reason of
/// the error (reading, writing, or output that is not UTF-8).
pub open spec fn xml_rewrite(input: Seq<char>) -> Result<Seq<char>, Seq<char>> {
    match rewrite_steps(Seq::empty(), trimmed_steps(input)) {
        Err(m) => Err(m),
        Ok(events) => {
            let b = indented_xml(events);
            if vstd::utf8::valid_utf8(b) {
                Ok(vstd::utf8::decode_utf8(b))
            } else {
                Err("XML output is not valid UTF-8: "@ + utf8_error_message(b))
            }
        },
    }
}

/// Re-writes `input` event by event with two-space indentation (see
/// [`xml_rewrite`]). A reading error is `invalid XML: ...`, a writing
/// error `failed to write XML event: ...`, output that is not UTF-8 `XML
/// output is not valid UTF-8: ...`; all are malformed-document errors.
pub fn prettify_xml(input: &str) -> (r: Result<String, ConvertError>)
    ensures
        match xml_rewrite(input@) {
            Ok(p) => r matches Ok(s) && s@ == p,
            Err(m) => r matches Err(e) && is_malformed(e, m),
        },
{
    let mut reader = trimming_reader(input);
    let mut writer = indenting_writer();
    let ghost all = rewrite_steps(Seq::empty(), trimmed_steps(input@));
    loop
        invariant_except_break
            steps_finished(trimmed_pending(reader)),
            rewrite_steps(written_events(writer), trimmed_pending(reader)) == all,
        invariant
            all == rewrite_steps(Seq::empty(), trimmed_steps(input@)),
        ensures
            all == Ok::<Seq<Event<'static>>, Seq<char>>(written_events(writer)),
        decreases trimmed_pending(reader).len(),
    {
        let ghost pending = trimmed_pending(reader);
        let ghost written = written_events(writer);
        match next_event(&mut reader) {
            ReadStep::End => {
                break;
            },
            ReadStep::Event(e) => {
                proof {
                    assert(!is_last_step(pending[0]));
                    assert(pending.len() > 1);
                    let rest = pending.drop_first();
                    assert forall|i: int| 0 <= i < rest.len() - 1 implies !is_last_step(
                        #[trigger] rest[i],
                    ) by {
                        assert(rest[i] == pending[i + 1]);
                    }
                }
                match write_event(&mut writer, e) {
                    Ok(()) => {},
                    Err(m) => {
                        return Err(malformed("failed to write XML event: ", m.as_str()));
                    },
                }
            },
            ReadStep::Failed(m) => {
                return Err(malformed("invalid XML: ", m.as_str()));
            },
        }
    }
    let bytes = written_bytes(writer);
    match utf8_or_message(bytes.as_slice()) {
        Ok(s) => Ok(s),
        Err(m) => Err(malformed("XML output is not valid UTF-8: ", m.as_str())),
    }
}

/// The fenced block around pretty-printed XML.
pub open spec fn xml_block(pretty: Seq<char>) -> Seq<char> {
    "```xml\n"@ + pretty + "\n```\n"@
}

/// The outcome of converting XML bytes: invalid UTF-8 is an error, so is
/// text that is blank once a leading BOM is removed; otherwise the
/// re-written document (see [`xml_rewrite`]) in a fenced block, or the
/// error of re-writing it.
pub open spec fn xml_outcome(data: Seq<u8>, r: Result<ConversionResult, ConvertError>) -> bool {
    if !vstd::utf8::valid_utf8(data) {
        r matches Err(e) && e == ConvertError::Utf8Error
    } else {
        let text = strip_bom_spec(vstd::utf8::decode_utf8(data));
        if trim_ws(text).len() == 0 {
            r matches Err(e) && is_malformed(e, "empty XML input"@)
        } else {
            match xml_rewrite(text) {
                Ok(p) => r matches Ok(res) && res.markdown@ == xml_block(p)
                    && res.plain_text@.len() == 0 && res.title is None && res.images@.len() == 0
                    && res.warnings@.len() == 0,
                Err(m) => r matches Err(e) && is_malformed(e, m),
            }
        }
    }
}

impl XmlConverter {
    /// Converts UTF-8 XML bytes: invalid UTF-8 is an error, so is text that
    /// is blank once a leading BOM is removed; otherwise the pretty-printed
    /// document in a fenced block.
    pub fn convert_xml(&self, data: &[u8]) -> (r: Result<ConversionResult, ConvertError>)
        ensures
            !vstd::utf8::valid_utf8(data@) ==> (r matches Err(e) && e == ConvertError::Utf8Error),
            vstd::utf8::valid_utf8(data@) && trim_ws(
                strip_bom_spec(vstd::utf8::decode_utf8(data@)),
            ).len() == 0 ==> (r matches Err(e) && is_malformed(e, "empty XML input"@)),
            r matches Ok(res) ==> exists|p: Seq<char>| res.markdown@ == xml_block(p),
            r matches Err(e) ==> e is Utf8Error || e is MalformedDocument,
            xml_outcome(data@, r),
    {
        let text = match utf8_to_string(data) {
            Some(t) => t,
            None => {
                return Err(ConvertError::Utf8Error);
            },
        };
        let c = chars_of(text.as_str());
        let s = strip_bom(c.as_slice());
        if is_blank(s.as_slice()) {
            return Err(malformed_because("empty XML input"));
        }
        let stripped = string_from_chars(s.as_slice());
        let pretty = match prettify_xml(stripped.as_str()) {
            Ok(p) => p,
            Err(e) => {
                return Err(e);
            },
        };
        let mut md: Vec<char> = Vec::new();
        push_str(&mut md, "```xml\n");
        push_str(&mut md, pretty.as_str());
        push_str(&mut md, "\n```\n");
        assert(md@ == xml_block(pretty@));
        let mut result = ConversionResult::default();
        result.markdown = string_from_chars(md.as_slice());
        Ok(result)
    }
}

impl Converter for XmlConverter {
    open spec fn extensions(&self) -> Seq<&'static str> {
        seq!["xml"]
    }

    fn supported_extensions(&self) -> (r: Vec<&'static str>) {
        let v = vec!["xml"];
        assert(v@ =~= seq!["xml"]);
        v
    }

    fn convert(&self, data: &[u8], _options: &ConversionOptions) -> (r: Result<
        ConversionResult,
        ConvertError,
    >)
        ensures
            xml_outcome(data@, r),
    {
        self.convert_xml(data)
    }
}

} // verus!
