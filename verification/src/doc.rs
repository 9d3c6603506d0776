use vstd::prelude::*;
use vstd::string::*;

use crate::generator::{i32_text, spec_i32_text};
use crate::scanner::{
    ArgumentDesc, EnumDesc, EventDesc, InterfaceDesc, ProtocolDesc, RequestDesc,
};
use crate::xml::char_to_string;

verus! {

/// The whitespace the collapsing rule folds: the ASCII blank characters.
pub open spec fn spec_is_blank(c: char) -> bool {
    c == ' ' || c == '\t' || c == '\n' || c == '\r'
}

/// Text with every run of blanks folded into one space; `prev` says
/// whether a run is already open.
pub open spec fn spec_collapse(s: Seq<char>, prev: bool) -> Seq<char>
    decreases s.len(),
{
    if s.len() == 0 {
        Seq::empty()
    } else {
        let c = s[0];
        if spec_is_blank(c) {
            if prev {
                spec_collapse(s.drop_first(), true)
            } else {
                seq![' '] + spec_collapse(s.drop_first(), true)
            }
        } else {
            seq![c] + spec_collapse(s.drop_first(), false)
        }
    }
}

/// Fold every run of blank characters into a single space.
pub fn combine_whitespace(text: &str) -> (r: String)
    ensures
        r@ == spec_collapse(text@, false),
{
    let n = text.unicode_len();
    let mut buf = String::new();
    let mut prev = false;
    let mut i: usize = 0;
    proof {
        assert(text@.skip(0) =~= text@);
        assert(buf@ + spec_collapse(text@, false) =~= spec_collapse(text@, false));
    }
    while i < n
        invariant
            i <= n,
            n == text@.len(),
            buf@ + spec_collapse(text@.skip(i as int), prev) == spec_collapse(text@, false),
        decreases n - i,
    {
        let c = text.get_char(i);
        proof {
            assert(text@.skip(i as int)[0] == text@[i as int]);
            assert(text@.skip(i as int).drop_first() =~= text@.skip(i + 1 as int));
        }
        let blank = c == ' ' || c == '\t' || c == '\n' || c == '\r';
        if blank {
            if !prev {
                let cs = char_to_string(' ');
                buf.append(cs.as_str());
            }
            prev = true;
        } else {
            let cs = char_to_string(c);
            buf.append(cs.as_str());
            prev = false;
        }
        proof {
            assert(buf@ + spec_collapse(text@.skip(i + 1 as int), prev) =~= spec_collapse(
                text@,
                false,
            ));
        }
        i = i + 1;
    }
    proof {
        assert(text@.skip(n as int) =~= Seq::<char>::empty());
        assert(buf@ =~= spec_collapse(text@, false));
    }
    buf
}

/// A sink the documentation walk writes into; embedders may supply their
/// own format.
pub trait DocGen {
    fn add_paragraph(&mut self, text: &str);

    fn begin_section(&mut self, title: &str);

    fn end_section(&mut self);

    fn generate(&mut self) -> Result<String, ()>;
}

/// The markdown heading marks of one nesting depth.
pub open spec fn spec_heading_marks(depth: int) -> Seq<char> {
    if depth <= 0 {
        "#"@
    } else if depth == 1 {
        "##"@
    } else if depth == 2 {
        "###"@
    } else if depth == 3 {
        "####"@
    } else if depth == 4 {
        "#####"@
    } else {
        "######"@
    }
}

/// The dotted section numbering: each counter plus one, dots between.
pub open spec fn spec_numbering(secs: Seq<i32>, k: int) -> Seq<char>
    decreases k,
{
    if k <= 0 {
        Seq::empty()
    } else {
        spec_numbering(secs, k - 1) + spec_i32_text((secs[k - 1] + 1) as i32) + (if k
            < secs.len() {
            "."@
        } else {
            Seq::<char>::empty()
        })
    }
}

/// A markdown writer: numbered, nested section headings and collapsed
/// paragraphs.
pub struct MarkdownGenerator {
    pub buf: String,
    pub sections: Vec<i32>,
}

impl MarkdownGenerator {
    pub fn new() -> (r: Self)
        ensures
            r.buf@.len() == 0,
            r.sections@ == seq![0i32],
    {
        let mut sections: Vec<i32> = Vec::new();
        sections.push(0);
        proof {
            assert(sections@ =~= seq![0i32]);
        }
        MarkdownGenerator { buf: String::new(), sections }
    }

    /// Append one paragraph, blanks collapsed, closed by a blank line.
    pub fn put_paragraph(&mut self, text: &str)
        ensures
            final(self).buf@ == old(self).buf@ + spec_collapse(text@, false) + "\n\n"@,
            final(self).sections@ == old(self).sections@,
    {
        let collapsed = combine_whitespace(text);
        self.buf.append(collapsed.as_str());
        self.buf.append("\n\n");
    }

    /// Open a section: heading marks for the depth, the dotted numbering,
    /// the title, then one more nesting level.
    pub fn open_section(&mut self, title: &str)
        requires
            forall|k: int|
                0 <= k < old(self).sections@.len() ==> #[trigger] old(self).sections@[k]
                    < i32::MAX,
        ensures
            final(self).buf@ == old(self).buf@ + spec_heading_marks(
                old(self).sections@.len() - 1,
            ) + " "@ + spec_numbering(old(self).sections@, old(self).sections@.len() as int)
                + " "@ + title@ + "\n\n"@,
            final(self).sections@ == old(self).sections@.push(0),
    {
        let depth = self.sections.len();
        if depth <= 1 {
            self.buf.append("#");
        } else if depth == 2 {
            self.buf.append("##");
        } else if depth == 3 {
            self.buf.append("###");
        } else if depth == 4 {
            self.buf.append("####");
        } else if depth == 5 {
            self.buf.append("#####");
        } else {
            self.buf.append("######");
        }
        self.buf.append(" ");
        let ghost pre = self.buf@;
        let n = self.sections.len();
        let mut i: usize = 0;
        while i < n
            invariant
                i <= n,
                n == self.sections@.len(),
                self.sections@ == old(self).sections@,
                forall|k: int|
                    0 <= k < self.sections@.len() ==> #[trigger] self.sections@[k] < i32::MAX,
                pre == old(self).buf@ + spec_heading_marks(old(self).sections@.len() - 1)
                    + " "@,
                self.buf@ == pre + spec_numbering(self.sections@, i as int),
            decreases n - i,
        {
            let num = i32_text(self.sections[i] + 1);
            self.buf.append(num.as_str());
            if i < n - 1 {
                self.buf.append(".");
            }
            proof {
                assert(self.buf@ =~= pre + spec_numbering(self.sections@, i + 1 as int));
            }
            i = i + 1;
        }
        self.buf.append(" ");
        self.buf.append(title);
        self.buf.append("\n\n");
        let ghost prevs = self.sections@;
        self.sections.push(0);
        proof {
            assert(self.sections@ =~= prevs.push(0));
        }
    }

    /// Close a section and step the parent's counter.
    pub fn close_section(&mut self)
        requires
            old(self).sections@.len() >= 2 ==> old(self).sections@[old(self).sections@.len()
                - 2] < i32::MAX,
        ensures
            old(self).sections@.len() == 0 ==> final(self).sections@ == old(self).sections@,
            old(self).sections@.len() == 1 ==> final(self).sections@
                == old(self).sections@.drop_last(),
            old(self).sections@.len() >= 2 ==> final(self).sections@
                == old(self).sections@.drop_last().update(
                old(self).sections@.len() - 2,
                (old(self).sections@[old(self).sections@.len() - 2] + 1) as i32,
            ),
            final(self).buf@ == old(self).buf@,
    {
        if self.sections.len() == 0 {
            return ;
        }
        let ghost prevs = self.sections@;
        let _popped = self.sections.pop();
        if self.sections.len() > 0 {
            let last = self.sections.len() - 1;
            let bumped = self.sections[last] + 1;
            self.sections.set(last, bumped);
            proof {
                assert(self.sections@ =~= prevs.drop_last().update(
                    prevs.len() - 2,
                    (prevs[prevs.len() - 2] + 1) as i32,
                ));
            }
        } else {
            proof {
                assert(self.sections@ =~= prevs.drop_last());
            }
        }
    }

    /// The document written so far.
    pub fn render(&self) -> (r: String)
        ensures
            r@ == self.buf@,
    {
        self.buf.clone()
    }
}

impl DocGen for MarkdownGenerator {
    fn add_paragraph(&mut self, text: &str) {
        self.put_paragraph(text);
    }

    fn begin_section(&mut self, title: &str) {
        // an exhausted counter cannot be numbered further; no real
        // protocol reaches it, and such a section is silently not opened
        let n = self.sections.len();
        let mut i: usize = 0;
        while i < n
            invariant
                i <= n,
                n == self.sections@.len(),
                forall|k: int| 0 <= k < i ==> #[trigger] self.sections@[k] < i32::MAX,
            decreases n - i,
        {
            if self.sections[i] == i32::MAX {
                return ;
            }
            i = i + 1;
        }
        self.open_section(title);
    }

    fn end_section(&mut self) {
        if self.sections.len() >= 2 {
            let at = self.sections.len() - 2;
            if self.sections[at] == i32::MAX {
                return ;
            }
        }
        self.close_section();
    }

    fn generate(&mut self) -> (r: Result<String, ()>) {
        Ok(self.render())
    }
}

/// Walk a protocol description into the given sink: one section per
/// interface, with its requests, events and enums nested. What comes out
/// is the sink's to decide; the markdown sink above is the one this crate
/// specifies.
pub fn generate_docs<G: DocGen>(protocol: &ProtocolDesc, generator: &mut G) -> Result<
    String,
    (),
> {
    let n = protocol.interfaces.len();
    let mut i: usize = 0;
    while i < n
        decreases n - i,
    {
        if i < protocol.interfaces.len() {
            generate_interface_docs(&protocol.interfaces[i], generator);
        }
        i = i + 1;
    }
    generator.generate()
}

/// One interface's section: its summary and description, then its
/// requests, events and enums.
pub fn generate_interface_docs<G: DocGen>(interface: &InterfaceDesc, sink: &mut G) {
    let mut title = String::new();
    title.append("Interface: ");
    title.append(interface.name.as_str());
    title.append(" (version ");
    let v = i32_text(interface.version);
    title.append(v.as_str());
    title.append(")");
    sink.begin_section(title.as_str());
    sink.add_paragraph(interface.summary.as_str());
    sink.add_paragraph(interface.description.as_str());
    let rn = interface.requests.len();
    let mut i: usize = 0;
    while i < rn
        decreases rn - i,
    {
        if i < interface.requests.len() {
            sink.begin_section("Requests");
            generate_request_docs(&interface.requests[i], sink);
            sink.end_section();
        }
        i = i + 1;
    }
    let en = interface.events.len();
    let mut j: usize = 0;
    while j < en
        decreases en - j,
    {
        if j < interface.events.len() {
            sink.begin_section("Events");
            generate_event_docs(&interface.events[j], sink);
            sink.end_section();
        }
        j = j + 1;
    }
    let nn = interface.enums.len();
    let mut k: usize = 0;
    while k < nn
        decreases nn - k,
    {
        if k < interface.enums.len() {
            sink.begin_section("Enums");
            generate_enum_docs(&interface.enums[k], sink);
            sink.end_section();
        }
        k = k + 1;
    }
    sink.end_section();
}

/// One request's section, its destructor mark and version gate in the
/// title, its arguments nested.
pub fn generate_request_docs<G: DocGen>(request: &RequestDesc, sink: &mut G) {
    let mut title = String::new();
    title.append(request.message.name.as_str());
    if request.destructor {
        title.append(" (destructor)");
    }
    match request.message.since {
        Some(v) => {
            title.append(" (since version ");
            let t = i32_text(v);
            title.append(t.as_str());
            title.append(")");
        },
        None => {},
    }
    sink.begin_section(title.as_str());
    sink.add_paragraph(request.message.summary.as_str());
    sink.add_paragraph(request.message.description.as_str());
    sink.begin_section("Arguments");
    let n = request.message.arguments.len();
    let mut i: usize = 0;
    while i < n
        decreases n - i,
    {
        if i < request.message.arguments.len() {
            generate_argument_docs(&request.message.arguments[i], sink);
        }
        i = i + 1;
    }
    sink.end_section();
    sink.end_section();
}

/// One event's section, like a request without a destructor mark.
pub fn generate_event_docs<G: DocGen>(event: &EventDesc, sink: &mut G) {
    let mut title = String::new();
    title.append(event.message.name.as_str());
    match event.message.since {
        Some(v) => {
            title.append(" (since version ");
            let t = i32_text(v);
            title.append(t.as_str());
            title.append(")");
        },
        None => {},
    }
    sink.begin_section(title.as_str());
    sink.add_paragraph(event.message.summary.as_str());
    sink.add_paragraph(event.message.description.as_str());
    sink.begin_section("Arguments");
    let n = event.message.arguments.len();
    let mut i: usize = 0;
    while i < n
        decreases n - i,
    {
        if i < event.message.arguments.len() {
            generate_argument_docs(&event.message.arguments[i], sink);
        }
        i = i + 1;
    }
    sink.end_section();
    sink.end_section();
}

/// One argument's section: its name and kind, then its summary, binding
/// and nullability.
pub fn generate_argument_docs<G: DocGen>(argument: &ArgumentDesc, sink: &mut G) {
    let mut title = String::new();
    title.append(argument.name.as_str());
    title.append(": ");
    title.append(argument.arg_type.to_string());
    sink.begin_section(title.as_str());
    sink.add_paragraph(argument.summary.as_str());
    match &argument.interface {
        Some(i) => {
            let mut line = String::new();
            line.append("Interface: ");
            line.append(i.as_str());
            sink.add_paragraph(line.as_str());
        },
        None => {},
    }
    match &argument.enum_type {
        Some((ns, e)) => {
            let mut line = String::new();
            line.append("Enum: ");
            match ns {
                Some(ns) => {
                    line.append(ns.as_str());
                    line.append(".");
                },
                None => {},
            }
            line.append(e.as_str());
            sink.add_paragraph(line.as_str());
        },
        None => {},
    }
    if argument.allow_null {
        sink.add_paragraph("Nullable");
    } else {
        sink.add_paragraph("Non-nullable");
    }
    sink.end_section();
}

/// One enum's section: its marks in the title, its summary and
/// description, then one line per member.
pub fn generate_enum_docs<G: DocGen>(decl: &EnumDesc, sink: &mut G) {
    let mut title = String::new();
    title.append("Enum: ");
    title.append(decl.name.as_str());
    if decl.bitfield {
        title.append(" (bitfield)");
    }
    match decl.since {
        Some(v) => {
            title.append(" (since version ");
            let t = i32_text(v);
            title.append(t.as_str());
            title.append(")");
        },
        None => {},
    }
    sink.begin_section(title.as_str());
    sink.add_paragraph(decl.summary.as_str());
    sink.add_paragraph(decl.description.as_str());
    let mut lines = String::new();
    let n = decl.entries.len();
    let mut i: usize = 0;
    while i < n
        decreases n - i,
    {
        if i < decl.entries.len() {
            lines.append(" - ");
            lines.append(decl.entries[i].name.as_str());
            lines.append(" = ");
            let v = i32_text(decl.entries[i].value);
            lines.append(v.as_str());
            lines.append(": ");
            lines.append(decl.entries[i].summary.as_str());
            lines.append("\n");
        }
        i = i + 1;
    }
    sink.add_paragraph(lines.as_str());
    sink.end_section();
}

} // verus!
