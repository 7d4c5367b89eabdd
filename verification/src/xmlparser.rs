//! A small XML tokenizer for page markup: elements, bare or valued
//! attributes, character data and comments. Positions count characters.

use vstd::prelude::*;

verus! {

pub enum XmlEvent<'a> {
    StartDocument {},
    EndDocument {},
    StartElement { name: &'a str },
    EndElement { name: &'a str },
    Attribute { key: &'a str, value: &'a str },
    CData { data: &'a str },
}

/// The content of an `XmlEvent`.
pub enum XmlEventView {
    StartDocument,
    EndDocument,
    StartElement(Seq<char>),
    EndElement(Seq<char>),
    Attribute(Seq<char>, Seq<char>),
    CData(Seq<char>),
}

impl<'a> View for XmlEvent<'a> {
    type V = XmlEventView;

    open spec fn view(&self) -> XmlEventView {
        match self {
            XmlEvent::StartDocument {} => XmlEventView::StartDocument,
            XmlEvent::EndDocument {} => XmlEventView::EndDocument,
            XmlEvent::StartElement { name } => XmlEventView::StartElement(name@),
            XmlEvent::EndElement { name } => XmlEventView::EndElement(name@),
            XmlEvent::Attribute { key, value } => XmlEventView::Attribute(key@, value@),
            XmlEvent::CData { data } => XmlEventView::CData(data@),
        }
    }
}

/// The three ways a document is refused.
pub enum XmlError {
    IllegalCharacter,
    IllegalAttributeName,
    InvalidState,
}

/// The message that `next` returns for each error.
pub open spec fn error_message(e: XmlError) -> Seq<char> {
    match e {
        XmlError::IllegalCharacter => "illegal character"@,
        XmlError::IllegalAttributeName => "illegal character in attribute name"@,
        XmlError::InvalidState => "invalid state"@,
    }
}

pub struct XmlParserConfig {
    pub trim_content: bool,
}

pub struct XmlParser {
    position: usize,
    state: usize,
    mark: usize,
    mark_end: usize,
    mark_value: usize,
    config: XmlParserConfig,
}

/// The state of a tokenizer between two calls of `next`.
pub struct XmlState {
    pub position: int,
    pub state: int,
    pub mark: int,
    pub mark_end: int,
    pub mark_value: int,
    pub trim: bool,
}

/// Outcome of looking at one character: go on (the position then moves by
/// one), or stop with an event or an error.
pub enum XmlStep {
    Go(XmlState),
    Done(XmlState, Result<XmlEventView, XmlError>),
}

/// Whether `c` is white space by the Unicode property `White_Space`, as
/// `char::is_whitespace` has it.
pub open spec fn is_white_space(c: char) -> bool {
    ||| ('\u{9}' <= c && c <= '\u{d}')
    ||| c == ' '
    ||| c == '\u{85}'
    ||| c == '\u{a0}'
    ||| c == '\u{1680}'
    ||| ('\u{2000}' <= c && c <= '\u{200a}')
    ||| c == '\u{2028}'
    ||| c == '\u{2029}'
    ||| c == '\u{202f}'
    ||| c == '\u{205f}'
    ||| c == '\u{3000}'
}

/// Where the text of `s` from `i` on starts behind its white space.
pub open spec fn trim_start(s: Seq<char>, i: int) -> int
    decreases s.len() - i,
{
    if 0 <= i < s.len() && is_white_space(s[i]) { trim_start(s, i + 1) } else { i }
}

/// Where the text of `s` before `j` ends ahead of its white space, not
/// before `lo`.
pub open spec fn trim_end(s: Seq<char>, j: int, lo: int) -> int
    decreases j - lo,
{
    if lo < j && is_white_space(s[j - 1]) { trim_end(s, j - 1, lo) } else { j }
}

/// What `str::trim` leaves of a string: `s` without its leading and
/// trailing white space.
pub closed spec fn str_trim(s: Seq<char>) -> Seq<char> {
    let a = trim_start(s, 0);
    s.subrange(a, trim_end(s, s.len() as int, a))
}

/// What `str::trim` leaves is a piece of the string, from its first
/// character that is no white space to its last.
pub proof fn lemma_str_trim(s: Seq<char>)
    ensures
        0 <= trim_start(s, 0) <= trim_end(s, s.len() as int, trim_start(s, 0)) <= s.len(),
        str_trim(s) == s.subrange(trim_start(s, 0), trim_end(s, s.len() as int, trim_start(s, 0))),
{
    lemma_trim_start_bounds(s, 0);
    lemma_trim_end_bounds(s, s.len() as int, trim_start(s, 0));
}

proof fn lemma_trim_start_bounds(s: Seq<char>, i: int)
    requires
        0 <= i <= s.len(),
    ensures
        i <= trim_start(s, i) <= s.len(),
    decreases s.len() - i,
{
    if i < s.len() && is_white_space(s[i]) {
        lemma_trim_start_bounds(s, i + 1);
    }
}

proof fn lemma_trim_end_bounds(s: Seq<char>, j: int, lo: int)
    requires
        lo <= j,
    ensures
        lo <= trim_end(s, j, lo) <= j,
    decreases j - lo,
{
    if lo < j && is_white_space(s[j - 1]) {
        lemma_trim_end_bounds(s, j - 1, lo);
    }
}

/// `str::trim`: `s` without leading and trailing white space.
#[verifier::external_body]
pub(crate) fn trim<'a>(s: &'a str) -> (r: &'a str)
    ensures
        r@ == str_trim(s@),
{
    s.trim()
}

/// Characters that may start or continue an attribute name. The ranges are
/// half-open: `z`, `Z` and `9` are not among them.
pub open spec fn is_name_char(c: char) -> bool {
    ('a' <= c && c < 'z') || ('A' <= c && c < 'Z') || ('0' <= c && c < '9') || c == '_'
}

pub open spec fn is_space(c: char) -> bool {
    c == ' ' || c == '\t' || c == '\n'
}

/// Inside an element name.
pub open spec fn step_name(st: XmlState, xml: Seq<char>, c: char) -> XmlStep {
    let p = st.position;
    if is_space(c) {
        XmlStep::Done(
            XmlState { state: 3, position: p + 1, ..st },
            Ok(XmlEventView::StartElement(xml.subrange(st.mark, p))),
        )
    } else if c == '>' {
        XmlStep::Done(
            XmlState { state: 11, mark: p, position: p + 1, ..st },
            Ok(XmlEventView::StartElement(xml.subrange(st.mark, p))),
        )
    } else {
        XmlStep::Go(st)
    }
}

/// One character at `st.position` (which lies inside `xml`).
pub open spec fn xml_step(st: XmlState, xml: Seq<char>) -> XmlStep {
    let p = st.position;
    let c = xml[p];
    if st.state == 1 {
        if c == '<' {
            XmlStep::Go(XmlState { state: 22, mark: p + 1, ..st })
        } else {
            XmlStep::Go(st)
        }
    } else if st.state == 11 {
        if c == '<' {
            let m = st.mark + 1;
            let s = XmlState { state: 22, mark: p + 1, ..st };
            if m != p {
                let d = xml.subrange(m, p);
                XmlStep::Done(
                    XmlState { position: p + 1, ..s },
                    Ok(XmlEventView::CData(if st.trim { str_trim(d) } else { d })),
                )
            } else {
                XmlStep::Go(s)
            }
        } else {
            XmlStep::Go(st)
        }
    } else if st.state == 22 {
        if c == '/' {
            XmlStep::Go(XmlState { state: 23, mark: p + 1, ..st })
        } else if c == '!' {
            XmlStep::Go(XmlState { state: 30, ..st })
        } else {
            step_name(XmlState { state: 2, ..st }, xml, c)
        }
    } else if st.state == 23 {
        if is_space(c) || c == '>' {
            XmlStep::Done(
                XmlState { state: if c == '>' { 1 } else { 24 }, mark: p, position: p + 1, ..st },
                Ok(XmlEventView::EndElement(xml.subrange(st.mark, p))),
            )
        } else {
            XmlStep::Go(st)
        }
    } else if st.state == 24 {
        if c == '>' {
            XmlStep::Done(
                XmlState { state: 1, mark: p, position: p + 1, ..st },
                Ok(XmlEventView::EndElement(xml.subrange(st.mark, p))),
            )
        } else {
            XmlStep::Go(st)
        }
    } else if st.state == 30 {
        if c == '-' {
            XmlStep::Go(XmlState { state: 31, ..st })
        } else {
            XmlStep::Done(st, Err(XmlError::IllegalCharacter))
        }
    } else if st.state == 31 {
        if c == '-' {
            XmlStep::Go(XmlState { state: 32, ..st })
        } else {
            XmlStep::Done(st, Err(XmlError::IllegalCharacter))
        }
    } else if st.state == 32 {
        if c == '-' {
            XmlStep::Go(XmlState { state: 33, ..st })
        } else {
            XmlStep::Go(st)
        }
    } else if st.state == 33 {
        XmlStep::Go(XmlState { state: if c == '-' { 34 } else { 32 }, ..st })
    } else if st.state == 34 {
        if c == '>' {
            XmlStep::Go(XmlState { state: 1, mark: p, ..st })
        } else {
            XmlStep::Go(XmlState { state: 32, ..st })
        }
    } else if st.state == 2 {
        step_name(st, xml, c)
    } else if st.state == 3 {
        if c == '>' {
            XmlStep::Done(
                XmlState { state: 11, mark: p, position: p + 1, ..st },
                Ok(XmlEventView::StartElement(xml.subrange(p, p + 1))),
            )
        } else if is_name_char(c) {
            XmlStep::Go(XmlState { mark: p, state: 4, ..st })
        } else {
            XmlStep::Go(st)
        }
    } else if st.state == 36 {
        if c == '>' {
            XmlStep::Go(XmlState { state: 11, mark: p, ..st })
        } else if is_name_char(c) {
            XmlStep::Go(XmlState { mark: p, state: 4, ..st })
        } else {
            XmlStep::Go(st)
        }
    } else if st.state == 4 {
        if c == '>' {
            XmlStep::Done(
                XmlState { state: 36, ..st },
                Ok(XmlEventView::Attribute(xml.subrange(st.mark, p), Seq::empty())),
            )
        } else if c == ' ' {
            XmlStep::Done(
                XmlState { state: 3, position: p + 1, ..st },
                Ok(XmlEventView::Attribute(xml.subrange(st.mark, p), Seq::empty())),
            )
        } else if c == '=' {
            XmlStep::Go(XmlState { state: 5, mark_end: p, mark_value: p + 1, ..st })
        } else if is_name_char(c) {
            XmlStep::Go(st)
        } else {
            XmlStep::Done(st, Err(XmlError::IllegalAttributeName))
        }
    } else if st.state == 5 {
        if c == '"' {
            XmlStep::Go(XmlState { mark_value: p + 1, state: 7, ..st })
        } else if c == '>' {
            XmlStep::Done(
                XmlState { state: 4, ..st },
                Ok(XmlEventView::Attribute(xml.subrange(st.mark, st.mark_end), Seq::empty())),
            )
        } else {
            XmlStep::Go(XmlState { state: 6, ..st })
        }
    } else if st.state == 6 {
        if is_space(c) || c == '>' {
            let s = if c == '>' {
                XmlState { state: 11, mark: p, ..st }
            } else {
                XmlState { state: 36, ..st }
            };
            XmlStep::Done(
                XmlState { position: p + 1, ..s },
                Ok(
                    XmlEventView::Attribute(
                        xml.subrange(st.mark, st.mark_end),
                        xml.subrange(st.mark_value, p),
                    ),
                ),
            )
        } else {
            XmlStep::Go(st)
        }
    } else if st.state == 7 {
        if c == '"' {
            XmlStep::Done(
                XmlState { state: 36, position: p + 1, ..st },
                Ok(
                    XmlEventView::Attribute(
                        xml.subrange(st.mark, st.mark_end),
                        xml.subrange(st.mark_value, p),
                    ),
                ),
            )
        } else {
            XmlStep::Go(st)
        }
    } else {
        XmlStep::Done(st, Err(XmlError::InvalidState))
    }
}

/// Characters are consumed until an event or an error comes, or the end.
pub open spec fn xml_run(st: XmlState, xml: Seq<char>) -> (XmlState, Result<XmlEventView, XmlError>)
    decreases xml.len() - st.position,
{
    if st.position >= xml.len() || st.position < 0 {
        (st, Ok(XmlEventView::EndDocument))
    } else {
        match xml_step(st, xml) {
            XmlStep::Done(s, r) => (s, r),
            XmlStep::Go(s) => xml_run(XmlState { position: st.position + 1, ..s }, xml),
        }
    }
}

/// What one call of `next` does: the document start first, then events.
pub open spec fn xml_next(st: XmlState, xml: Seq<char>) -> (XmlState, Result<XmlEventView, XmlError>) {
    if st.state == 0 {
        (XmlState { state: 1, mark: st.position, ..st }, Ok(XmlEventView::StartDocument))
    } else {
        xml_run(st, xml)
    }
}

/// Marks never lie ahead of the position.
pub open spec fn xml_state_wf(st: XmlState) -> bool {
    &&& 0 <= st.mark <= st.position <= usize::MAX
    &&& st.state == 11 ==> st.mark < st.position
    &&& (st.state == 5 || st.state == 6 || st.state == 7) ==> {
        &&& st.mark <= st.mark_end <= st.position
        &&& st.mark_value <= st.position
    }
    &&& 0 <= st.mark_end <= usize::MAX
    &&& 0 <= st.mark_value <= usize::MAX
    &&& 0 <= st.state <= usize::MAX
}

proof fn lemma_step_wf(st: XmlState, xml: Seq<char>)
    requires
        xml_state_wf(st),
        st.state != 0,
        0 <= st.position < xml.len(),
        xml.len() <= usize::MAX,
    ensures
        match xml_step(st, xml) {
            XmlStep::Go(s) => xml_state_wf(XmlState { position: st.position + 1, ..s }) && s.position
                == st.position,
            XmlStep::Done(s, _) => xml_state_wf(s),
        },
{
}

proof fn lemma_run_wf(st: XmlState, xml: Seq<char>)
    requires
        xml_state_wf(st),
        st.state != 0,
        xml.len() <= usize::MAX,
    ensures
        xml_state_wf(xml_run(st, xml).0),
    decreases xml.len() - st.position,
{
    if st.position < xml.len() {
        lemma_step_wf(st, xml);
        match xml_step(st, xml) {
            XmlStep::Go(s) => {
                let n = XmlState { position: st.position + 1, ..s };
                if n.state != 0 {
                    lemma_run_wf(n, xml);
                } else {
                    assert(false);
                }
            },
            XmlStep::Done(s, _) => {},
        }
    }
}

/// Whether `t` is a piece of `xml`.
pub open spec fn is_piece(t: Seq<char>, xml: Seq<char>) -> bool {
    exists|i: int, j: int| #![trigger xml.subrange(i, j)] 0 <= i <= j <= xml.len() && t == xml.subrange(i, j)
}

/// Whether every text an event carries is a piece of `xml`.
pub open spec fn event_in(v: XmlEventView, xml: Seq<char>) -> bool {
    match v {
        XmlEventView::StartElement(n) => is_piece(n, xml),
        XmlEventView::EndElement(n) => is_piece(n, xml),
        XmlEventView::CData(d) => is_piece(d, xml),
        XmlEventView::Attribute(k, v) => is_piece(k, xml) && is_piece(v, xml),
        _ => true,
    }
}

proof fn lemma_step_law(st: XmlState, xml: Seq<char>)
    requires
        xml_state_wf(st),
        st.state != 0,
        0 <= st.position < xml.len(),
    ensures
        match xml_step(st, xml) {
            XmlStep::Go(s) => s.position == st.position,
            XmlStep::Done(s, r) => st.position <= s.position <= st.position + 1 && (r matches Ok(v) ==> event_in(v, xml)),
        },
{
    let p = st.position;
    assert(xml.subrange(0, 0) == Seq::<char>::empty());
    assert(xml.subrange(p, p + 1) == xml.subrange(p, p + 1));
    assert(xml.subrange(st.mark, p) == xml.subrange(st.mark, p));
    if st.state == 5 || st.state == 6 || st.state == 7 {
        assert(xml.subrange(st.mark, st.mark_end) == xml.subrange(st.mark, st.mark_end));
        assert(xml.subrange(st.mark_value, p) == xml.subrange(st.mark_value, p));
    }
    if st.state == 11 && xml[p] == '<' && st.mark + 1 != p {
        let d = xml.subrange(st.mark + 1, p);
        assert(d == xml.subrange(st.mark + 1, p));
        lemma_str_trim(d);
        let a = trim_start(d, 0);
        let b = trim_end(d, d.len() as int, a);
        assert(str_trim(d) =~= xml.subrange(st.mark + 1 + a, st.mark + 1 + b));
    }
}

proof fn lemma_run_law(st: XmlState, xml: Seq<char>)
    requires
        xml_state_wf(st),
        st.state != 0,
        st.position <= xml.len() <= usize::MAX,
    ensures
        st.position <= xml_run(st, xml).0.position <= xml.len(),
        xml_run(st, xml).1 matches Ok(v) ==> event_in(v, xml),
    decreases xml.len() - st.position,
{
    if st.position < xml.len() {
        lemma_step_wf(st, xml);
        lemma_step_law(st, xml);
        match xml_step(st, xml) {
            XmlStep::Go(s) => {
                let n = XmlState { position: st.position + 1, ..s };
                if n.state != 0 {
                    lemma_run_law(n, xml);
                }
            },
            XmlStep::Done(s, _) => {},
        }
    }
}

/// Fed the same text on every call, the parser never moves back nor past
/// its end, and every name, value and text of an event it gives is a piece
/// of the text.
pub proof fn lemma_next_law(st: XmlState, xml: Seq<char>)
    requires
        xml_state_wf(st),
        st.position <= xml.len() <= usize::MAX,
    ensures
        st.position <= xml_next(st, xml).0.position <= xml.len(),
        xml_state_wf(xml_next(st, xml).0),
        xml_next(st, xml).1 matches Ok(v) ==> event_in(v, xml),
{
    if st.state != 0 {
        lemma_run_law(st, xml);
        lemma_run_wf(st, xml);
    }
}

impl XmlParser {
    pub closed spec fn model(&self) -> XmlState {
        XmlState {
            position: self.position as int,
            state: self.state as int,
            mark: self.mark as int,
            mark_end: self.mark_end as int,
            mark_value: self.mark_value as int,
            trim: self.config.trim_content,
        }
    }

    pub open spec fn wf(&self) -> bool {
        xml_state_wf(self.model())
    }

    pub fn new() -> (r: Self)
        ensures
            r.wf(),
            r.model() == (XmlState {
                position: 0,
                state: 0,
                mark: 0,
                mark_end: 0,
                mark_value: 0,
                trim: true,
            }),
    {
        XmlParser {
            position: 0,
            state: 0,
            mark: 0,
            mark_end: 0,
            mark_value: 0,
            config: XmlParserConfig { trim_content: true },
        }
    }

    pub fn position(&self) -> (r: usize)
        ensures
            r as int == self.model().position,
    {
        self.position
    }

    /// The next event of `xml`, resuming where the last call stopped.
    pub fn next<'a>(&mut self, xml: &'a str) -> (r: Result<XmlEvent<'a>, &'static str>)
        requires
            old(self).wf(),
        ensures
            final(self).wf(),
            final(self).model() == xml_next(old(self).model(), xml@).0,
            match (r, xml_next(old(self).model(), xml@).1) {
                (Ok(e), Ok(v)) => e@ == v,
                (Err(m), Err(v)) => m@ == error_message(v),
                _ => false,
            },
    {
        if self.state == 0 {
            self.state = 1;
            self.mark = self.position;
            return Ok(XmlEvent::StartDocument {});
        }
        let len = xml.unicode_len();
        let ghost start = self.model();
        proof { lemma_run_wf(start, xml@); }
        loop
            invariant
                self.wf(),
                self.state != 0,
                len == xml@.len(),
                xml_run(self.model(), xml@) == xml_run(start, xml@),
                xml_run(start, xml@) == xml_next(old(self).model(), xml@),
                self.model().trim == start.trim,
            decreases 2 * (xml@.len() - self.position) + (if self.state == 22 { 1int } else { 0 }),
        {
            if len <= self.position {
                return Ok(XmlEvent::EndDocument {});
            }
            let ghost before = self.model();
            proof { lemma_step_wf(before, xml@); }
            let p = self.position;
            let character = xml.get_char(p);
            let st = self.state;
            if st == 1 {
                if character == '<' {
                    self.state = 22;
                    self.mark = p + 1;
                }
            } else if st == 11 {
                if character == '<' {
                    let mark = self.mark + 1;
                    self.state = 22;
                    self.mark = p + 1;
                    if mark != p {
                        self.position = p + 1;
                        let data = xml.substring_char(mark, p);
                        if self.config.trim_content {
                            return Ok(XmlEvent::CData { data: trim(data) });
                        } else {
                            return Ok(XmlEvent::CData { data: data });
                        }
                    }
                }
            } else if st == 22 {
                if character == '/' {
                    self.state = 23;
                    self.mark = p + 1;
                } else if character == '!' {
                    self.state = 30;
                } else {
                    self.state = 2;
                    continue ;
                }
            } else if st == 23 {
                if character == ' ' || character == '\t' || character == '\n' || character == '>' {
                    let mark = self.mark;
                    self.state = if character == '>' { 1 } else { 24 };
                    self.mark = p;
                    self.position = p + 1;
                    return Ok(XmlEvent::EndElement { name: xml.substring_char(mark, p) });
                }
            } else if st == 24 {
                if character == '>' {
                    let mark = self.mark;
                    self.state = 1;
                    self.mark = p;
                    self.position = p + 1;
                    return Ok(XmlEvent::EndElement { name: xml.substring_char(mark, p) });
                }
            } else if st == 30 {
                if character == '-' {
                    self.state = 31;
                } else {
                    return Err("illegal character");
                }
            } else if st == 31 {
                if character == '-' {
                    self.state = 32;
                } else {
                    return Err("illegal character");
                }
            } else if st == 32 {
                if character == '-' {
                    self.state = 33;
                }
            } else if st == 33 {
                if character == '-' {
                    self.state = 34;
                } else {
                    self.state = 32;
                }
            } else if st == 34 {
                if character == '>' {
                    self.state = 1;
                    self.mark = p;
                } else {
                    self.state = 32;
                }
            } else if st == 2 {
                if character == ' ' || character == '\t' || character == '\n' {
                    self.state = 3;
                    self.position = p + 1;
                    return Ok(XmlEvent::StartElement { name: xml.substring_char(self.mark, p) });
                } else if character == '>' {
                    let mark = self.mark;
                    self.state = 11;
                    self.mark = p;
                    self.position = p + 1;
                    return Ok(XmlEvent::StartElement { name: xml.substring_char(mark, p) });
                }
            } else if st == 3 {
                if character == '>' {
                    self.state = 11;
                    self.mark = p;
                    self.position = p + 1;
                    return Ok(XmlEvent::StartElement { name: xml.substring_char(p, p + 1) });
                } else if ('a' <= character && character < 'z') || ('A' <= character && character
                    < 'Z') || ('0' <= character && character < '9') || character == '_' {
                    self.mark = p;
                    self.state = 4;
                }
            } else if st == 36 {
                if character == '>' {
                    self.state = 11;
                    self.mark = p;
                } else if ('a' <= character && character < 'z') || ('A' <= character && character
                    < 'Z') || ('0' <= character && character < '9') || character == '_' {
                    self.mark = p;
                    self.state = 4;
                }
            } else if st == 4 {
                if character == '>' {
                    self.state = 36;
                    proof { reveal_strlit(""); assert(""@ =~= Seq::<char>::empty()); }
                    return Ok(XmlEvent::Attribute { key: xml.substring_char(self.mark, p), value: "" });
                } else if character == ' ' {
                    self.state = 3;
                    self.position = p + 1;
                    proof { reveal_strlit(""); assert(""@ =~= Seq::<char>::empty()); }
                    return Ok(XmlEvent::Attribute { key: xml.substring_char(self.mark, p), value: "" });
                } else if character == '=' {
                    self.state = 5;
                    self.mark_end = p;
                    self.mark_value = p + 1;
                } else if ('a' <= character && character < 'z') || ('A' <= character && character
                    < 'Z') || ('0' <= character && character < '9') || character == '_' {
                } else {
                    return Err("illegal character in attribute name");
                }
            } else if st == 5 {
                if character == '"' {
                    self.mark_value = p + 1;
                    self.state = 7;
                } else if character == '>' {
                    self.state = 4;
                    proof { reveal_strlit(""); assert(""@ =~= Seq::<char>::empty()); }
                    return Ok(
                        XmlEvent::Attribute {
                            key: xml.substring_char(self.mark, self.mark_end),
                            value: "",
                        },
                    );
                } else {
                    self.state = 6;
                }
            } else if st == 6 {
                if character == ' ' || character == '\t' || character == '\n' || character == '>' {
                    let mark = self.mark;
                    if character == '>' {
                        self.state = 11;
                        self.mark = p;
                    } else {
                        self.state = 36;
                    }
                    self.position = p + 1;
                    return Ok(
                        XmlEvent::Attribute {
                            key: xml.substring_char(mark, self.mark_end),
                            value: xml.substring_char(self.mark_value, p),
                        },
                    );
                }
            } else if st == 7 {
                if character == '"' {
                    self.state = 36;
                    self.position = p + 1;
                    return Ok(
                        XmlEvent::Attribute {
                            key: xml.substring_char(self.mark, self.mark_end),
                            value: xml.substring_char(self.mark_value, p),
                        },
                    );
                }
            } else {
                return Err("invalid state");
            }
            self.position = p + 1;
        }
    }
}

} // verus!
