use vstd::prelude::*;
use vstd::string::*;

use crate::scanner::{ArgumentDescView, EntryDescView};
use crate::wire::ArgumentType;
use crate::xml::char_to_string;

verus! {

/// Which side of an interface a message belongs to.
#[derive(Debug, Clone, Copy, PartialEq, Eq, Structural)]
pub enum MessageSide {
    Request,
    Event,
}

pub open spec fn spec_side_str(s: MessageSide) -> Seq<char> {
    match s {
        MessageSide::Request => "Request"@,
        MessageSide::Event => "Event"@,
    }
}

impl MessageSide {
    /// The suffix this side puts on generated type names.
    pub fn as_str(self) -> (r: &'static str)
        ensures
            r@ == spec_side_str(self),
    {
        match self {
            MessageSide::Request => "Request",
            MessageSide::Event => "Event",
        }
    }
}

/// The upper-case form of an ASCII letter; anything else is unchanged.
pub open spec fn spec_upper(c: char) -> char {
    if 'a' <= c && c <= 'z' {
        ((c as u32) - 32) as char
    } else {
        c
    }
}

/// What the camel-case renaming makes of the rest of a name, given the
/// character just before it: the first letter is raised, underscores are
/// dropped, and a letter after an underscore is raised.
pub open spec fn spec_camel(s: Seq<char>, prev: Option<char>) -> Seq<char>
    decreases s.len(),
{
    if s.len() == 0 {
        Seq::empty()
    } else {
        let c = s[0];
        let rest = spec_camel(s.drop_first(), Some(c));
        match prev {
            None => seq![spec_upper(c)] + rest,
            Some(p) => {
                if c == '_' {
                    rest
                } else if p == '_' {
                    seq![spec_upper(c)] + rest
                } else {
                    seq![c] + rest
                }
            },
        }
    }
}

pub open spec fn spec_snake_to_camel(s: Seq<char>) -> Seq<char> {
    spec_camel(s, None)
}

/// Raise one ASCII letter.
pub fn ascii_upper(c: char) -> (r: char)
    ensures
        r == spec_upper(c),
{
    if 'a' <= c && c <= 'z' {
        let code = (c as u32) - 32;
        let b = code as u8;
        let r = b as char;
        proof {
            assert(r == spec_upper(c));
        }
        r
    } else {
        c
    }
}

/// Turn a `snake_case` name into `CamelCase`, exactly as the renaming
/// rules read.
pub fn snake_to_camel(snake: &str) -> (r: String)
    ensures
        r@ == spec_snake_to_camel(snake@),
{
    let n = snake.unicode_len();
    let mut buf = String::new();
    let mut i: usize = 0;
    let mut prev: Option<char> = None;
    proof {
        assert(snake@.skip(0) =~= snake@);
        assert(buf@ + spec_camel(snake@, None) =~= spec_camel(snake@, None));
    }
    while i < n
        invariant
            i <= n,
            n == snake@.len(),
            prev == (if i == 0 {
                Option::<char>::None
            } else {
                Option::<char>::Some(snake@[i - 1])
            }),
            buf@ + spec_camel(snake@.skip(i as int), prev) == spec_snake_to_camel(snake@),
        decreases n - i,
    {
        let c = snake.get_char(i);
        proof {
            assert(snake@.skip(i as int)[0] == snake@[i as int]);
            assert(snake@.skip(i as int).drop_first() =~= snake@.skip(i + 1 as int));
        }
        let up = i == 0 || (prev == Some('_') && c != '_');
        if c != '_' || i == 0 {
            let out = if up {
                ascii_upper(c)
            } else {
                c
            };
            let cs = char_to_string(out);
            buf.append(cs.as_str());
        }
        proof {
            assert(buf@ + spec_camel(snake@.skip(i + 1 as int), Some(snake@[i as int]))
                =~= spec_snake_to_camel(snake@));
        }
        prev = Some(c);
        i = i + 1;
    }
    proof {
        assert(snake@.skip(n as int) =~= Seq::<char>::empty());
        assert(buf@ =~= spec_snake_to_camel(snake@));
    }
    buf
}

/// Prefix a variant name that reads as an unsigned 32-bit number, so it
/// stays a valid identifier; anything else is left alone.
pub fn sanitize_enum_variant_name(name: &str) -> (r: String)
    ensures
        r@ == spec_sanitize_plain(name@),
        crate::scanner::spec_parse_u32(name@) is Some ==> r@ == seq!['_'] + name@,
        crate::scanner::spec_parse_u32(name@) is None ==> r@ == name@,
{
    match crate::scanner::parse_u32(name) {
        Some(_) => {
            let mut buf = char_to_string('_');
            buf.append(name);
            proof {
                assert(buf@ =~= seq!['_'] + name@);
            }
            buf
        },
        None => name.to_owned(),
    }
}

/// The decimal spelling of a 32-bit value.
pub open spec fn spec_u32_text(n: int) -> Seq<char>
    decreases n,
{
    if n <= 0 {
        seq!['0']
    } else if n < 10 {
        seq![(('0' as u32) + n as u32) as char]
    } else {
        spec_u32_text(n / 10) + seq![(('0' as u32) + (n % 10) as u32) as char]
    }
}

/// The decimal spelling of a signed 32-bit value.
pub open spec fn spec_i32_text(v: i32) -> Seq<char> {
    if v < 0 {
        seq!['-'] + spec_u32_text(-(v as int))
    } else {
        spec_u32_text(v as int)
    }
}

/// Write a 32-bit value in decimal.
pub fn u32_text(n: u32) -> (r: String)
    ensures
        r@ == spec_u32_text(n as int),
    decreases n,
{
    if n == 0 {
        let r = char_to_string('0');
        return r;
    }
    if n < 10 {
        let d = ((('0' as u32) + n) as u8) as char;
        let r = char_to_string(d);
        return r;
    }
    let mut r = u32_text(n / 10);
    let d = ((('0' as u32) + (n % 10)) as u8) as char;
    let ds = char_to_string(d);
    r.append(ds.as_str());
    r
}

/// Write a signed 32-bit value in decimal.
pub fn i32_text(v: i32) -> (r: String)
    ensures
        r@ == spec_i32_text(v),
{
    if v < 0 {
        let mut r = char_to_string('-');
        let m: u32 = if v == i32::MIN {
            0x8000_0000u32
        } else {
            (-v) as u32
        };
        proof {
            assert(m as int == -(v as int));
        }
        let t = u32_text(m);
        r.append(t.as_str());
        proof {
            assert(r@ =~= seq!['-'] + spec_u32_text(-(v as int)));
        }
        r
    } else {
        u32_text(v as u32)
    }
}

/// The spelled form of a truth value, as source text.
pub open spec fn spec_bool_text(b: bool) -> Seq<char> {
    if b {
        "true"@
    } else {
        "false"@
    }
}

pub fn bool_text(b: bool) -> (r: &'static str)
    ensures
        r@ == spec_bool_text(b),
{
    if b {
        "true"
    } else {
        "false"
    }
}

/// A struct to be emitted: its derives, visibility, name and data shape.
pub struct StructDefinition {
    pub derives: String,
    pub name: String,
    pub visibility: String,
    pub data: StructData,
}

/// The shape of an emitted struct or enum variant.
pub enum StructData {
    Unit,
    Tuple(Vec<String>),
    Fields(Vec<(String, String)>),
}

/// An enum to be emitted: its derives, visibility, name and variants.
pub struct EnumDefinition {
    pub derives: String,
    pub name: String,
    pub visibility: String,
    pub variants: Vec<(String, StructData)>,
}

/// Text of a comma-joined list.
pub open spec fn spec_join_comma(s: Seq<Seq<char>>) -> Seq<char>
    decreases s.len(),
{
    if s.len() == 0 {
        Seq::empty()
    } else if s.len() == 1 {
        s[0]
    } else {
        spec_join_comma(s.drop_last()) + ","@ + s.last()
    }
}

/// The texts of a list of strings.
pub open spec fn spec_strs_view(v: Seq<String>) -> Seq<Seq<char>> {
    Seq::new(v.len(), |i: int| v[i]@)
}

/// Text of named fields: each as `pub name:type,`.
pub open spec fn spec_pub_fields_text(v: Seq<(String, String)>) -> Seq<char>
    decreases v.len(),
{
    if v.len() == 0 {
        Seq::empty()
    } else {
        spec_pub_fields_text(v.drop_last()) + "pub "@ + v.last().0@ + ":"@ + v.last().1@ + ","@
    }
}

/// Text of named fields without visibility: each as `name:type,`.
pub open spec fn spec_fields_text(v: Seq<(String, String)>) -> Seq<char>
    decreases v.len(),
{
    if v.len() == 0 {
        Seq::empty()
    } else {
        spec_fields_text(v.drop_last()) + v.last().0@ + ":"@ + v.last().1@ + ","@
    }
}

/// The body a struct's data shape spells: `;` for a unit struct, a
/// parenthesized join for a tuple, braced `pub` fields otherwise.
pub open spec fn spec_struct_data_text(d: StructData) -> Seq<char> {
    match d {
        StructData::Unit => ";"@,
        StructData::Tuple(fields) => "("@ + spec_join_comma(spec_strs_view(fields@)) + ")"@,
        StructData::Fields(fields) => "{"@ + spec_pub_fields_text(fields@) + "}"@,
    }
}

/// The text an emitted struct spells.
pub open spec fn spec_define_struct(d: StructDefinition) -> Seq<char> {
    "#[derive("@ + d.derives@ + ")]"@ + d.visibility@ + " struct "@ + d.name@
        + spec_struct_data_text(d.data)
}

/// Emit one struct declaration.
pub fn define_struct(def: &StructDefinition) -> (r: String)
    ensures
        r@ == spec_define_struct(*def),
{
    let mut buf = String::new();
    buf.append("#[derive(");
    buf.append(def.derives.as_str());
    buf.append(")]");
    buf.append(def.visibility.as_str());
    buf.append(" struct ");
    buf.append(def.name.as_str());
    let body = struct_data_text(&def.data);
    buf.append(body.as_str());
    proof {
        assert(buf@ =~= spec_define_struct(*def));
    }
    buf
}

/// Emit the data shape of a struct or variant.
fn struct_data_text(d: &StructData) -> (r: String)
    ensures
        r@ == spec_struct_data_text(*d),
{
    match d {
        StructData::Unit => ";".to_owned(),
        StructData::Tuple(fields) => {
            let mut buf = String::new();
            buf.append("(");
            let n = fields.len();
            let mut i: usize = 0;
            while i < n
                invariant
                    i <= n,
                    n == fields@.len(),
                    buf@ == "("@ + spec_join_comma(spec_strs_view(fields@.take(i as int))),
                decreases n - i,
            {
                if i > 0 {
                    buf.append(",");
                }
                buf.append(fields[i].as_str());
                proof {
                    assert(spec_strs_view(fields@.take(i + 1 as int)) =~= spec_strs_view(
                        fields@.take(i as int),
                    ).push(fields@[i as int]@));
                    if i == 0 {
                        assert(buf@ =~= "("@ + spec_join_comma(
                            spec_strs_view(fields@.take(i + 1 as int)),
                        ));
                    } else {
                        assert(spec_strs_view(fields@.take(i + 1 as int)).drop_last()
                            =~= spec_strs_view(fields@.take(i as int)));
                        assert(buf@ =~= "("@ + spec_join_comma(
                            spec_strs_view(fields@.take(i + 1 as int)),
                        ));
                    }
                }
                i = i + 1;
            }
            buf.append(")");
            proof {
                assert(fields@.take(n as int) =~= fields@);
                assert(buf@ =~= spec_struct_data_text(*d));
            }
            buf
        },
        StructData::Fields(fields) => {
            let mut buf = String::new();
            buf.append("{");
            let n = fields.len();
            let mut i: usize = 0;
            while i < n
                invariant
                    i <= n,
                    n == fields@.len(),
                    buf@ == "{"@ + spec_pub_fields_text(fields@.take(i as int)),
                decreases n - i,
            {
                buf.append("pub ");
                buf.append(fields[i].0.as_str());
                buf.append(":");
                buf.append(fields[i].1.as_str());
                buf.append(",");
                proof {
                    assert(fields@.take(i + 1 as int).drop_last() =~= fields@.take(i as int));
                    assert(buf@ =~= "{"@ + spec_pub_fields_text(fields@.take(i + 1 as int)));
                }
                i = i + 1;
            }
            buf.append("}");
            proof {
                assert(fields@.take(n as int) =~= fields@);
                assert(buf@ =~= spec_struct_data_text(*d));
            }
            buf
        },
    }
}

/// The text one enum variant spells: its name and shape, then a comma.
pub open spec fn spec_variant_text(v: (String, StructData)) -> Seq<char> {
    match v.1 {
        StructData::Unit => v.0@ + ","@,
        StructData::Tuple(fields) => v.0@ + "("@ + spec_join_comma(spec_strs_view(fields@))
            + "),"@,
        StructData::Fields(fields) => v.0@ + "{"@ + spec_fields_text(fields@) + "},"@,
    }
}

pub open spec fn spec_variants_text(v: Seq<(String, StructData)>) -> Seq<char>
    decreases v.len(),
{
    if v.len() == 0 {
        Seq::empty()
    } else {
        spec_variants_text(v.drop_last()) + spec_variant_text(v.last())
    }
}

/// The text an emitted enum spells.
pub open spec fn spec_define_enum(d: EnumDefinition) -> Seq<char> {
    "#[derive("@ + d.derives@ + ")]"@ + d.visibility@ + " enum "@ + d.name@ + "{"@
        + spec_variants_text(d.variants@) + "}"@
}

/// Emit one enum declaration.
pub fn define_enum(def: &EnumDefinition) -> (r: String)
    ensures
        r@ == spec_define_enum(*def),
{
    let mut buf = String::new();
    buf.append("#[derive(");
    buf.append(def.derives.as_str());
    buf.append(")]");
    buf.append(def.visibility.as_str());
    buf.append(" enum ");
    buf.append(def.name.as_str());
    buf.append("{");
    let n = def.variants.len();
    let mut i: usize = 0;
    let ghost pre = buf@;
    while i < n
        invariant
            i <= n,
            n == def.variants@.len(),
            pre == "#[derive("@ + def.derives@ + ")]"@ + def.visibility@ + " enum "@
                + def.name@ + "{"@,
            buf@ == pre + spec_variants_text(def.variants@.take(i as int)),
        decreases n - i,
    {
        let vt = variant_text(&def.variants[i]);
        buf.append(vt.as_str());
        proof {
            assert(def.variants@.take(i + 1 as int).drop_last() =~= def.variants@.take(
                i as int,
            ));
            assert(buf@ =~= pre + spec_variants_text(def.variants@.take(i + 1 as int)));
        }
        i = i + 1;
    }
    buf.append("}");
    proof {
        assert(def.variants@.take(n as int) =~= def.variants@);
        assert(buf@ =~= spec_define_enum(*def));
    }
    buf
}

/// Emit one enum variant.
fn variant_text(v: &(String, StructData)) -> (r: String)
    ensures
        r@ == spec_variant_text(*v),
{
    let mut buf = String::new();
    buf.append(v.0.as_str());
    match &v.1 {
        StructData::Unit => {
            buf.append(",");
        },
        StructData::Tuple(fields) => {
            buf.append("(");
            let n = fields.len();
            let mut i: usize = 0;
            let ghost pre = buf@;
            while i < n
                invariant
                    i <= n,
                    n == fields@.len(),
                    pre == v.0@ + "("@,
                    buf@ == pre + spec_join_comma(spec_strs_view(fields@.take(i as int))),
                decreases n - i,
            {
                if i > 0 {
                    buf.append(",");
                }
                buf.append(fields[i].as_str());
                proof {
                    assert(spec_strs_view(fields@.take(i + 1 as int)) =~= spec_strs_view(
                        fields@.take(i as int),
                    ).push(fields@[i as int]@));
                    if i > 0 {
                        assert(spec_strs_view(fields@.take(i + 1 as int)).drop_last()
                            =~= spec_strs_view(fields@.take(i as int)));
                    }
                    assert(buf@ =~= pre + spec_join_comma(
                        spec_strs_view(fields@.take(i + 1 as int)),
                    ));
                }
                i = i + 1;
            }
            buf.append("),");
            proof {
                assert(fields@.take(n as int) =~= fields@);
                assert(buf@ =~= spec_variant_text(*v));
            }
        },
        StructData::Fields(fields) => {
            buf.append("{");
            let n = fields.len();
            let mut i: usize = 0;
            let ghost pre = buf@;
            while i < n
                invariant
                    i <= n,
                    n == fields@.len(),
                    pre == v.0@ + "{"@,
                    buf@ == pre + spec_fields_text(fields@.take(i as int)),
                decreases n - i,
            {
                buf.append(fields[i].0.as_str());
                buf.append(":");
                buf.append(fields[i].1.as_str());
                buf.append(",");
                proof {
                    assert(fields@.take(i + 1 as int).drop_last() =~= fields@.take(i as int));
                    assert(buf@ =~= pre + spec_fields_text(fields@.take(i + 1 as int)));
                }
                i = i + 1;
            }
            buf.append("},");
            proof {
                assert(fields@.take(n as int) =~= fields@);
                assert(buf@ =~= spec_variant_text(*v));
            }
        },
    }
    proof {
        assert(buf@ =~= spec_variant_text(*v));
    }
    buf
}

/// The path an enum reference spells: through its owning interface module
/// when one is named, local otherwise.
pub open spec fn spec_enum_type_text(et: (Option<Seq<char>>, Seq<char>)) -> Seq<char> {
    match et.0 {
        Some(ns) => "super::"@ + ns + "::"@ + spec_snake_to_camel(et.1),
        None => spec_snake_to_camel(et.1),
    }
}

/// The path an interface's marker type spells from a sibling module.
pub open spec fn spec_iface_path(i: Seq<char>) -> Seq<char> {
    "super::"@ + i + "::"@ + spec_snake_to_camel(i)
}

/// The field type one argument maps to, by the declared mapping: enums keep
/// their declared type, strings and arrays are byte vectors, objects and
/// new ids are resource handles, descriptors stay raw.
pub open spec fn spec_argument_type_text(a: ArgumentDescView) -> Seq<char> {
    match a.arg_type {
        ArgumentType::Int => match a.enum_type {
            Some(et) => spec_enum_type_text(et),
            None => "i32"@,
        },
        ArgumentType::Uint => match a.enum_type {
            Some(et) => spec_enum_type_text(et),
            None => "u32"@,
        },
        ArgumentType::Fixed => "Fixed"@,
        ArgumentType::String => {
            if a.allow_null {
                "Option<Vec<u8>>"@
            } else {
                "Vec<u8>"@
            }
        },
        ArgumentType::Object => {
            let inner = match a.interface {
                Some(i) => spec_iface_path(i),
                None => "Untyped"@,
            };
            if a.allow_null {
                "Option<Resource<"@ + inner + ">>"@
            } else {
                "Resource<"@ + inner + ">"@
            }
        },
        ArgumentType::NewId => {
            let inner = match a.interface {
                Some(i) => spec_iface_path(i),
                None => "Untyped"@,
            };
            "NewResource<"@ + inner + ">"@
        },
        ArgumentType::Array => "Vec<u8>"@,
        ArgumentType::Fd => "RawFd"@,
    }
}

/// Emit the field type of one declared argument.
pub fn generate_argument_type(argument: &crate::scanner::ArgumentDesc) -> (r: String)
    ensures
        r@ == spec_argument_type_text(argument@),
{
    match argument.arg_type {
        ArgumentType::Int | ArgumentType::Uint => {
            match &argument.enum_type {
                Some((ns, e)) => {
                    let mut buf = String::new();
                    match ns {
                        Some(ns) => {
                            buf.append("super::");
                            buf.append(ns.as_str());
                            buf.append("::");
                        },
                        None => {},
                    }
                    let camel = snake_to_camel(e.as_str());
                    buf.append(camel.as_str());
                    proof {
                        assert(buf@ =~= spec_argument_type_text(argument@));
                    }
                    buf
                },
                None => {
                    if matches!(argument.arg_type, ArgumentType::Int) {
                        "i32".to_owned()
                    } else {
                        "u32".to_owned()
                    }
                },
            }
        },
        ArgumentType::Fixed => "Fixed".to_owned(),
        ArgumentType::String => {
            if argument.allow_null {
                "Option<Vec<u8>>".to_owned()
            } else {
                "Vec<u8>".to_owned()
            }
        },
        ArgumentType::Object => {
            let mut buf = String::new();
            if argument.allow_null {
                buf.append("Option<Resource<");
            } else {
                buf.append("Resource<");
            }
            match &argument.interface {
                Some(i) => {
                    buf.append("super::");
                    buf.append(i.as_str());
                    buf.append("::");
                    let camel = snake_to_camel(i.as_str());
                    buf.append(camel.as_str());
                },
                None => {
                    buf.append("Untyped");
                },
            }
            if argument.allow_null {
                buf.append(">>");
            } else {
                buf.append(">");
            }
            proof {
                assert(buf@ =~= spec_argument_type_text(argument@));
            }
            buf
        },
        ArgumentType::NewId => {
            let mut buf = String::new();
            buf.append("NewResource<");
            match &argument.interface {
                Some(i) => {
                    buf.append("super::");
                    buf.append(i.as_str());
                    buf.append("::");
                    let camel = snake_to_camel(i.as_str());
                    buf.append(camel.as_str());
                },
                None => {
                    buf.append("Untyped");
                },
            }
            buf.append(">");
            proof {
                assert(buf@ =~= spec_argument_type_text(argument@));
            }
            buf
        },
        ArgumentType::Array => "Vec<u8>".to_owned(),
        ArgumentType::Fd => "RawFd".to_owned(),
    }
}

/// Every letter raised, for bitflag member names.
pub open spec fn spec_upper_all(s: Seq<char>) -> Seq<char> {
    Seq::new(s.len(), |i: int| spec_upper(s[i]))
}

pub fn ascii_upper_all(s: &str) -> (r: String)
    ensures
        r@ == spec_upper_all(s@),
{
    let n = s.unicode_len();
    let mut buf = String::new();
    let mut i: usize = 0;
    while i < n
        invariant
            i <= n,
            n == s@.len(),
            buf@ == spec_upper_all(s@).take(i as int),
        decreases n - i,
    {
        let c = ascii_upper(s.get_char(i));
        let cs = char_to_string(c);
        buf.append(cs.as_str());
        proof {
            assert(buf@ =~= spec_upper_all(s@).take(i + 1 as int));
        }
        i = i + 1;
    }
    proof {
        assert(spec_upper_all(s@).take(n as int) =~= spec_upper_all(s@));
    }
    buf
}

/// The member lines of a bitflags declaration: one `const` per entry.
pub open spec fn spec_bitflag_entries(entries: Seq<EntryDescView>) -> Seq<char>
    decreases entries.len(),
{
    if entries.len() == 0 {
        Seq::empty()
    } else {
        spec_bitflag_entries(entries.drop_last()) + "const "@ + spec_upper_all(
            spec_sanitize_plain(entries.last().name),
        ) + " = "@ + spec_i32_text(entries.last().value) + ";"@
    }
}

/// What the variant-name cleanup spells: an underscore before a name that
/// reads as an unsigned 32-bit number.
pub open spec fn spec_sanitize_plain(s: Seq<char>) -> Seq<char> {
    if crate::scanner::spec_parse_u32(s) is Some {
        seq!['_'] + s
    } else {
        s
    }
}

/// The variant lines of a plain enum: `Name = value,` per entry.
pub open spec fn spec_plain_variants(entries: Seq<EntryDescView>) -> Seq<char>
    decreases entries.len(),
{
    if entries.len() == 0 {
        Seq::empty()
    } else {
        spec_plain_variants(entries.drop_last()) + spec_sanitize_plain(
            spec_snake_to_camel(entries.last().name),
        ) + " = "@ + spec_i32_text(entries.last().value) + ","@
    }
}

/// The conversion arms of a plain enum: `value => Self::Name,` per entry.
pub open spec fn spec_from_matches(entries: Seq<EntryDescView>) -> Seq<char>
    decreases entries.len(),
{
    if entries.len() == 0 {
        Seq::empty()
    } else {
        spec_from_matches(entries.drop_last()) + spec_i32_text(entries.last().value)
            + " => Self::"@ + spec_sanitize_plain(spec_snake_to_camel(entries.last().name))
            + ","@
    }
}

/// The whole text one declared enum spells: a bitflags declaration with
/// `from_bits` conversions when the declaration is a bitfield, otherwise a
/// plain sum with value conversions from both integer widths.
pub open spec fn spec_enum_definition_text(e: crate::scanner::EnumDescView) -> Seq<char> {
    let name = spec_snake_to_camel(e.name);
    if e.bitfield {
        "bitflags!{pub struct "@ + name + ":u32{"@ + spec_bitflag_entries(e.entries) + "}}"@
            + "impl TryFrom<u32> for "@ + name
            + "{type Error=InvalidEnumValue;fn try_from(v:u32)->Result<Self,Self::Error>{Self::from_bits(v).ok_or(InvalidEnumValue)}}"@
            + "impl From<"@ + name + "> for u32{fn from(v:"@ + name + ")->u32{v.bits()}}"@
    } else {
        "#[derive(Debug,Clone,Copy,PartialEq,Eq)]#[repr(u32)]pub enum "@ + name + "{"@
            + spec_plain_variants(e.entries) + "}"@ + "impl TryFrom<u32> for "@ + name
            + "{type Error=InvalidEnumValue;fn try_from(v:u32)->Result<Self,Self::Error>{Ok(match v{"@
            + spec_from_matches(e.entries) + "_=>return Err(InvalidEnumValue),})}}"@
            + "impl TryFrom<i32> for "@ + name
            + "{type Error=InvalidEnumValue;fn try_from(v:i32)->Result<Self,Self::Error>{Ok(match v{"@
            + spec_from_matches(e.entries) + "_=>return Err(InvalidEnumValue),})}}"@
            + "impl From<"@ + name + "> for u32{fn from(v:"@ + name + ")->u32{v as u32}}"@
            + "impl From<"@ + name + "> for i32{fn from(v:"@ + name
            + ")->i32{i32::try_from(v as u32).unwrap()}}"@
    }
}

/// Emit the declaration and conversions of one declared enum.
pub fn generate_enum_definition(enum_desc: &crate::scanner::EnumDesc) -> (r: String)
    ensures
        r@ == spec_enum_definition_text(enum_desc@),
{
    let name = snake_to_camel(enum_desc.name.as_str());
    if enum_desc.bitfield {
        let mut buf = String::new();
        buf.append("bitflags!{pub struct ");
        buf.append(name.as_str());
        buf.append(":u32{");
        let n = enum_desc.entries.len();
        let mut i: usize = 0;
        let ghost pre = buf@;
        while i < n
            invariant
                i <= n,
                n == enum_desc.entries@.len(),
                pre == "bitflags!{pub struct "@ + spec_snake_to_camel(enum_desc@.name)
                    + ":u32{"@,
                buf@ == pre + spec_bitflag_entries(enum_desc@.entries.take(i as int)),
            decreases n - i,
        {
            buf.append("const ");
            let sane = sanitize_enum_variant_name(enum_desc.entries[i].name.as_str());
            let upper = ascii_upper_all(sane.as_str());
            buf.append(upper.as_str());
            buf.append(" = ");
            let vt = i32_text(enum_desc.entries[i].value);
            buf.append(vt.as_str());
            buf.append(";");
            proof {
                assert(enum_desc@.entries.take(i + 1 as int).drop_last() =~= enum_desc@.entries.take(
                    i as int,
                ));
                assert(sane@ == spec_sanitize_plain(enum_desc@.entries[i as int].name));
                assert(buf@ =~= pre + spec_bitflag_entries(
                    enum_desc@.entries.take(i + 1 as int),
                ));
            }
            i = i + 1;
        }
        proof {
            assert(enum_desc@.entries.take(n as int) =~= enum_desc@.entries);
        }
        buf.append("}}");
        buf.append("impl TryFrom<u32> for ");
        buf.append(name.as_str());
        buf.append(
            "{type Error=InvalidEnumValue;fn try_from(v:u32)->Result<Self,Self::Error>{Self::from_bits(v).ok_or(InvalidEnumValue)}}",
        );
        buf.append("impl From<");
        buf.append(name.as_str());
        buf.append("> for u32{fn from(v:");
        buf.append(name.as_str());
        buf.append(")->u32{v.bits()}}");
        proof {
            assert(buf@ =~= spec_enum_definition_text(enum_desc@));
        }
        buf
    } else {
        let matches_text = from_matches_text(&enum_desc.entries);
        let mut buf = String::new();
        buf.append("#[derive(Debug,Clone,Copy,PartialEq,Eq)]#[repr(u32)]pub enum ");
        buf.append(name.as_str());
        buf.append("{");
        let n = enum_desc.entries.len();
        let mut i: usize = 0;
        let ghost pre = buf@;
        while i < n
            invariant
                i <= n,
                n == enum_desc.entries@.len(),
                pre == "#[derive(Debug,Clone,Copy,PartialEq,Eq)]#[repr(u32)]pub enum "@
                    + spec_snake_to_camel(enum_desc@.name) + "{"@,
                buf@ == pre + spec_plain_variants(enum_desc@.entries.take(i as int)),
            decreases n - i,
        {
            let camel = snake_to_camel(enum_desc.entries[i].name.as_str());
            let sane = sanitize_enum_variant_name(camel.as_str());
            buf.append(sane.as_str());
            buf.append(" = ");
            let vt = i32_text(enum_desc.entries[i].value);
            buf.append(vt.as_str());
            buf.append(",");
            proof {
                assert(enum_desc@.entries.take(i + 1 as int).drop_last() =~= enum_desc@.entries.take(
                    i as int,
                ));
                assert(sane@ == spec_sanitize_plain(
                    spec_snake_to_camel(enum_desc@.entries[i as int].name),
                ));
                assert(buf@ =~= pre + spec_plain_variants(
                    enum_desc@.entries.take(i + 1 as int),
                ));
            }
            i = i + 1;
        }
        proof {
            assert(enum_desc@.entries.take(n as int) =~= enum_desc@.entries);
        }
        buf.append("}");
        buf.append("impl TryFrom<u32> for ");
        buf.append(name.as_str());
        buf.append(
            "{type Error=InvalidEnumValue;fn try_from(v:u32)->Result<Self,Self::Error>{Ok(match v{",
        );
        buf.append(matches_text.as_str());
        buf.append("_=>return Err(InvalidEnumValue),})}}");
        buf.append("impl TryFrom<i32> for ");
        buf.append(name.as_str());
        buf.append(
            "{type Error=InvalidEnumValue;fn try_from(v:i32)->Result<Self,Self::Error>{Ok(match v{",
        );
        buf.append(matches_text.as_str());
        buf.append("_=>return Err(InvalidEnumValue),})}}");
        buf.append("impl From<");
        buf.append(name.as_str());
        buf.append("> for u32{fn from(v:");
        buf.append(name.as_str());
        buf.append(")->u32{v as u32}}");
        buf.append("impl From<");
        buf.append(name.as_str());
        buf.append("> for i32{fn from(v:");
        buf.append(name.as_str());
        buf.append(")->i32{i32::try_from(v as u32).unwrap()}}");
        proof {
            assert(buf@ =~= spec_enum_definition_text(enum_desc@));
        }
        buf
    }
}

/// Emit the conversion arms shared by both integer conversions.
fn from_matches_text(entries: &Vec<crate::scanner::EntryDesc>) -> (r: String)
    ensures
        r@ == spec_from_matches(entries.deep_view()),
{
    let mut buf = String::new();
    let n = entries.len();
    let mut i: usize = 0;
    proof {
        crate::scanner::lemma_vec_deep_view_is(entries);
    }
    while i < n
        invariant
            i <= n,
            n == entries@.len(),
            entries.deep_view().len() == n,
            buf@ == spec_from_matches(entries.deep_view().take(i as int)),
        decreases n - i,
    {
        let vt = i32_text(entries[i].value);
        buf.append(vt.as_str());
        buf.append(" => Self::");
        let camel = snake_to_camel(entries[i].name.as_str());
        let sane = sanitize_enum_variant_name(camel.as_str());
        buf.append(sane.as_str());
        buf.append(",");
        proof {
            assert(entries.deep_view().take(i + 1 as int).drop_last()
                =~= entries.deep_view().take(i as int));
            assert(entries.deep_view()[i as int] == entries@[i as int]@);
            assert(sane@ == spec_sanitize_plain(
                spec_snake_to_camel(entries.deep_view()[i as int].name),
            ));
            assert(buf@ =~= spec_from_matches(entries.deep_view().take(i + 1 as int)));
        }
        i = i + 1;
    }
    proof {
        assert(entries.deep_view().take(n as int) =~= entries.deep_view());
    }
    buf
}

/// The name of the borrowed value a parser step binds: `val` and the slot
/// number.
pub open spec fn spec_val(i: int) -> Seq<char> {
    "val"@ + spec_u32_text(i)
}

/// The straight-line text that pulls one argument off the dynamic reader:
/// a read of the declared kind, null checks where null is forbidden,
/// resolution of object ids, allocation of new ids, and a final cast to
/// the declared enum when one is named.
pub open spec fn spec_parser_step(a: ArgumentDescView, i: int) -> Seq<char> {
    let val = spec_val(i);
    let create = match a.arg_type {
        ArgumentType::Int => "let "@ + val + " = reader.next_int()?;"@,
        ArgumentType::Uint => "let "@ + val + " = reader.next_uint()?;"@,
        ArgumentType::Fixed => "let "@ + val + " = reader.next_fixed()?;"@,
        ArgumentType::String => {
            if a.allow_null {
                "let "@ + val + " = reader.next_string()?;"@
            } else {
                "let "@ + val + " = reader.next_string()?.ok_or(FromArgsError::NullArgument)?;"@
            }
        },
        ArgumentType::Object => {
            let get = if a.interface is Some {
                "let "@ + val
                    + " = reader.next_object()?.map(|id|client_map.try_get_object(id).ok_or(FromArgsError::ResourceDoesntExist)).transpose()?;"@
            } else {
                "let "@ + val
                    + " = reader.next_object()?.map(|id|client_map.try_get_object_untyped(id).ok_or(FromArgsError::ResourceDoesntExist)).transpose()?;"@
            };
            if a.allow_null {
                get
            } else {
                get + "let "@ + val + " = "@ + val + ".ok_or(FromArgsError::NullArgument)?;"@
            }
        },
        ArgumentType::NewId => {
            if a.interface is Some {
                "let "@ + val + " = reader.next_new_id()?.0;let "@ + val
                    + " = client_map.add_new_id("@ + val + ");"@
            } else {
                "let "@ + val + " = reader.next_new_id()?.0;let "@ + val
                    + " = client_map.add_new_id_untyped("@ + val + ");"@
            }
        },
        ArgumentType::Array => "let "@ + val + " = reader.next_array()?;"@,
        ArgumentType::Fd => "let "@ + val + " = reader.next_fd()?;"@,
    };
    match a.enum_type {
        Some(et) => {
            let path = match et.0 {
                Some(ns) => "super::"@ + ns + "::"@ + spec_sanitize_plain(
                    spec_snake_to_camel(et.1),
                ),
                None => spec_sanitize_plain(spec_snake_to_camel(et.1)),
            };
            create + "let "@ + val + " = "@ + path + "::try_from("@ + val + ")?;"@
        },
        None => create,
    }
}

/// The parser steps of the first `k` arguments, in order.
pub open spec fn spec_parser_steps(args: Seq<ArgumentDescView>, k: int) -> Seq<char>
    decreases k,
{
    if k <= 0 {
        Seq::empty()
    } else {
        spec_parser_steps(args, k - 1) + spec_parser_step(args[k - 1], k - 1)
    }
}

/// The field initializers of the built request value: each declared
/// argument set from its bound value, in order.
pub open spec fn spec_ctor_fields(args: Seq<ArgumentDescView>, k: int) -> Seq<char>
    decreases k,
{
    if k <= 0 {
        Seq::empty()
    } else {
        spec_ctor_fields(args, k - 1) + args[k - 1].name + ": "@ + spec_val(k - 1) + ","@
    }
}

/// The whole match-arm body that parses one message: the per-argument
/// steps, then the construction of the typed variant, carrying a payload
/// struct exactly when the message declares arguments.
pub open spec fn spec_message_parser_text(
    iface_name: Seq<char>,
    m: crate::scanner::MessageDescView,
    side: MessageSide,
) -> Seq<char> {
    let enum_name = spec_snake_to_camel(iface_name) + spec_side_str(side);
    let variant = spec_snake_to_camel(spec_sanitize_plain(m.name));
    let steps = spec_parser_steps(m.arguments, m.arguments.len() as int);
    if m.arguments.len() == 0 {
        steps + enum_name + "::"@ + variant
    } else {
        steps + enum_name + "::"@ + variant + "("@ + spec_snake_to_camel(m.name)
            + spec_side_str(side) + "{"@ + spec_ctor_fields(
            m.arguments,
            m.arguments.len() as int,
        ) + "})"@
    }
}

/// Emit the match-arm body that parses one message into its typed form.
pub fn generate_message_parser(
    interface_name: &str,
    message: &crate::scanner::MessageDesc,
    side: MessageSide,
) -> (r: String)
    requires
        message.arguments@.len() < 0xFFFF_FFFF,
    ensures
        r@ == spec_message_parser_text(interface_name@, message@, side),
{
    let mut buf = String::new();
    let n = message.arguments.len();
    let mut i: usize = 0;
    proof {
        crate::scanner::lemma_vec_deep_view_is(&message.arguments);
    }
    while i < n
        invariant
            i <= n,
            n == message.arguments@.len(),
            n < 0xFFFF_FFFF,
            message@.arguments.len() == n,
            buf@ == spec_parser_steps(message@.arguments, i as int),
        decreases n - i,
    {
        let step = parser_step_text(&message.arguments[i], i as u32);
        buf.append(step.as_str());
        proof {
            assert(message@.arguments[i as int] == message.arguments@[i as int]@);
            assert(buf@ =~= spec_parser_steps(message@.arguments, i + 1 as int));
        }
        i = i + 1;
    }
    let camel_iface = snake_to_camel(interface_name);
    buf.append(camel_iface.as_str());
    buf.append(side.as_str());
    buf.append("::");
    let sane = sanitize_enum_variant_name(message.name.as_str());
    let variant = snake_to_camel(sane.as_str());
    buf.append(variant.as_str());
    if n > 0 {
        buf.append("(");
        let camel_msg = snake_to_camel(message.name.as_str());
        buf.append(camel_msg.as_str());
        buf.append(side.as_str());
        buf.append("{");
        let ghost pre = buf@;
        let mut j: usize = 0;
        while j < n
            invariant
                j <= n,
                n == message.arguments@.len(),
                n < 0xFFFF_FFFF,
                message@.arguments.len() == n,
                buf@ == pre + spec_ctor_fields(message@.arguments, j as int),
            decreases n - j,
        {
            buf.append(message.arguments[j].name.as_str());
            buf.append(": ");
            let vt = val_text(j as u32);
            buf.append(vt.as_str());
            buf.append(",");
            proof {
                assert(message@.arguments[j as int] == message.arguments@[j as int]@);
                assert(buf@ =~= pre + spec_ctor_fields(message@.arguments, j + 1 as int));
            }
            j = j + 1;
        }
        buf.append("})");
    }
    proof {
        assert(buf@ =~= spec_message_parser_text(interface_name@, message@, side));
    }
    buf
}

/// The bound name of one parser slot.
fn val_text(i: u32) -> (r: String)
    ensures
        r@ == spec_val(i as int),
{
    let mut buf = String::new();
    buf.append("val");
    let t = u32_text(i);
    buf.append(t.as_str());
    proof {
        assert(buf@ =~= spec_val(i as int));
    }
    buf
}

/// Emit the reader steps of one argument slot.
fn parser_step_text(a: &crate::scanner::ArgumentDesc, i: u32) -> (r: String)
    ensures
        r@ == spec_parser_step(a@, i as int),
{
    let val = val_text(i);
    let mut buf = String::new();
    match a.arg_type {
        ArgumentType::Int => {
            buf.append("let ");
            buf.append(val.as_str());
            buf.append(" = reader.next_int()?;");
        },
        ArgumentType::Uint => {
            buf.append("let ");
            buf.append(val.as_str());
            buf.append(" = reader.next_uint()?;");
        },
        ArgumentType::Fixed => {
            buf.append("let ");
            buf.append(val.as_str());
            buf.append(" = reader.next_fixed()?;");
        },
        ArgumentType::String => {
            buf.append("let ");
            buf.append(val.as_str());
            if a.allow_null {
                buf.append(" = reader.next_string()?;");
            } else {
                buf.append(" = reader.next_string()?.ok_or(FromArgsError::NullArgument)?;");
            }
        },
        ArgumentType::Object => {
            buf.append("let ");
            buf.append(val.as_str());
            if a.interface.is_some() {
                buf.append(
                    " = reader.next_object()?.map(|id|client_map.try_get_object(id).ok_or(FromArgsError::ResourceDoesntExist)).transpose()?;",
                );
            } else {
                buf.append(
                    " = reader.next_object()?.map(|id|client_map.try_get_object_untyped(id).ok_or(FromArgsError::ResourceDoesntExist)).transpose()?;",
                );
            }
            if !a.allow_null {
                buf.append("let ");
                buf.append(val.as_str());
                buf.append(" = ");
                buf.append(val.as_str());
                buf.append(".ok_or(FromArgsError::NullArgument)?;");
            }
        },
        ArgumentType::NewId => {
            buf.append("let ");
            buf.append(val.as_str());
            buf.append(" = reader.next_new_id()?.0;let ");
            buf.append(val.as_str());
            if a.interface.is_some() {
                buf.append(" = client_map.add_new_id(");
            } else {
                buf.append(" = client_map.add_new_id_untyped(");
            }
            buf.append(val.as_str());
            buf.append(");");
        },
        ArgumentType::Array => {
            buf.append("let ");
            buf.append(val.as_str());
            buf.append(" = reader.next_array()?;");
        },
        ArgumentType::Fd => {
            buf.append("let ");
            buf.append(val.as_str());
            buf.append(" = reader.next_fd()?;");
        },
    }
    match &a.enum_type {
        Some((ns, e)) => {
            buf.append("let ");
            buf.append(val.as_str());
            buf.append(" = ");
            match ns {
                Some(ns) => {
                    buf.append("super::");
                    buf.append(ns.as_str());
                    buf.append("::");
                },
                None => {},
            }
            let camel = snake_to_camel(e.as_str());
            let sane = sanitize_enum_variant_name(camel.as_str());
            buf.append(sane.as_str());
            buf.append("::try_from(");
            buf.append(val.as_str());
            buf.append(")?;");
        },
        None => {},
    }
    proof {
        assert(buf@ =~= spec_parser_step(a@, i as int));
    }
    buf
}

/// The variant name one argument kind bears in emitted descriptor tables.
pub open spec fn spec_arg_type_variant(t: ArgumentType) -> Seq<char> {
    match t {
        ArgumentType::Int => "Int"@,
        ArgumentType::Uint => "Uint"@,
        ArgumentType::Fixed => "Fixed"@,
        ArgumentType::String => "String"@,
        ArgumentType::Object => "Object"@,
        ArgumentType::NewId => "NewId"@,
        ArgumentType::Array => "Array"@,
        ArgumentType::Fd => "Fd"@,
    }
}

/// The wire descriptor one argument spells in the emitted schema tables.
pub open spec fn spec_wire_arg_desc(a: ArgumentDescView) -> Seq<char> {
    "ArgumentDesc{arg_type:ArgumentType::"@ + spec_arg_type_variant(a.arg_type)
        + ",interface:"@ + (match a.interface {
        Some(i) => "Some(\""@ + i + "\")"@,
        None => "None"@,
    }) + ",allow_null:"@ + spec_bool_text(a.allow_null) + "},"@
}

/// Emit one argument's wire descriptor.
pub fn generate_wire_arg_desc(arg: &crate::scanner::ArgumentDesc) -> (r: String)
    ensures
        r@ == spec_wire_arg_desc(arg@),
{
    let mut buf = String::new();
    buf.append("ArgumentDesc{arg_type:ArgumentType::");
    match arg.arg_type {
        ArgumentType::Int => buf.append("Int"),
        ArgumentType::Uint => buf.append("Uint"),
        ArgumentType::Fixed => buf.append("Fixed"),
        ArgumentType::String => buf.append("String"),
        ArgumentType::Object => buf.append("Object"),
        ArgumentType::NewId => buf.append("NewId"),
        ArgumentType::Array => buf.append("Array"),
        ArgumentType::Fd => buf.append("Fd"),
    }
    buf.append(",interface:");
    match &arg.interface {
        Some(i) => {
            buf.append("Some(\"");
            buf.append(i.as_str());
            buf.append("\")");
        },
        None => {
            buf.append("None");
        },
    }
    buf.append(",allow_null:");
    buf.append(bool_text(arg.allow_null));
    buf.append("},");
    proof {
        assert(buf@ =~= spec_wire_arg_desc(arg@));
    }
    buf
}

/// The descriptor row of one message: its arguments inside a slice.
pub open spec fn spec_arg_row(args: Seq<ArgumentDescView>) -> Seq<char>
    decreases args.len(),
{
    if args.len() == 0 {
        Seq::empty()
    } else {
        spec_arg_row(args.drop_last()) + spec_wire_arg_desc(args.last())
    }
}

/// The whole table of one side: one slice of descriptors per opcode.
pub open spec fn spec_arg_arrays(msgs: Seq<crate::scanner::MessageDescView>) -> Seq<char>
    decreases msgs.len(),
{
    if msgs.len() == 0 {
        Seq::empty()
    } else {
        spec_arg_arrays(msgs.drop_last()) + "&["@ + spec_arg_row(msgs.last().arguments) + "],"@
    }
}

/// Emit one side's schema table as a nested slice expression.
pub fn generate_arg_arrays(messages: &Vec<crate::scanner::MessageDesc>) -> (r: String)
    ensures
        r@ == "&["@ + spec_arg_arrays(messages.deep_view()) + "]"@,
{
    let mut buf = String::new();
    buf.append("&[");
    let n = messages.len();
    let mut i: usize = 0;
    proof {
        crate::scanner::lemma_vec_deep_view_is(messages);
    }
    while i < n
        invariant
            i <= n,
            n == messages@.len(),
            messages.deep_view().len() == n,
            buf@ == "&["@ + spec_arg_arrays(messages.deep_view().take(i as int)),
        decreases n - i,
    {
        buf.append("&[");
        let m = messages[i].arguments.len();
        let mut j: usize = 0;
        let ghost pre = buf@;
        proof {
            crate::scanner::lemma_vec_deep_view_is(&messages[i as int].arguments);
        }
        while j < m
            invariant
                i < n,
                j <= m,
                n == messages@.len(),
                messages.deep_view().len() == n,
                m == messages@[i as int].arguments@.len(),
                messages.deep_view()[i as int].arguments.len() == m,
                messages.deep_view()[i as int] == messages@[i as int]@,
                buf@ == pre + spec_arg_row(
                    messages.deep_view()[i as int].arguments.take(j as int),
                ),
            decreases m - j,
        {
            let d = generate_wire_arg_desc(&messages[i].arguments[j]);
            buf.append(d.as_str());
            proof {
                assert(messages.deep_view()[i as int].arguments[j as int]
                    == messages@[i as int].arguments@[j as int]@);
                assert(messages.deep_view()[i as int].arguments.take(j + 1 as int).drop_last()
                    =~= messages.deep_view()[i as int].arguments.take(j as int));
                assert(buf@ =~= pre + spec_arg_row(
                    messages.deep_view()[i as int].arguments.take(j + 1 as int),
                ));
            }
            j = j + 1;
        }
        buf.append("],");
        proof {
            assert(messages.deep_view()[i as int].arguments.take(m as int)
                =~= messages.deep_view()[i as int].arguments);
            assert(messages.deep_view().take(i + 1 as int).drop_last()
                =~= messages.deep_view().take(i as int));
            assert(buf@ =~= "&["@ + spec_arg_arrays(messages.deep_view().take(i + 1 as int)));
        }
        i = i + 1;
    }
    buf.append("]");
    proof {
        assert(messages.deep_view().take(n as int) =~= messages.deep_view());
        assert(buf@ =~= "&["@ + spec_arg_arrays(messages.deep_view()) + "]"@);
    }
    buf
}

/// The match arms of the opcode function: each variant to its position.
pub open spec fn spec_opcode_arms(msgs: Seq<crate::scanner::MessageDescView>, k: int) -> Seq<
    char,
>
    decreases k,
{
    if k <= 0 {
        Seq::empty()
    } else {
        spec_opcode_arms(msgs, k - 1) + "Self::"@ + spec_sanitize_plain(
            spec_snake_to_camel(msgs[k - 1].name),
        ) + (if msgs[k - 1].arguments.len() == 0 {
            Seq::<char>::empty()
        } else {
            "(_)"@
        }) + " => "@ + spec_u32_text(k - 1) + ","@
    }
}

/// The whole emitted opcode function: the declared order gives each message
/// its number.
pub open spec fn spec_opcode_fn(msgs: Seq<crate::scanner::MessageDescView>) -> Seq<char> {
    "fn opcode(&self)->u16{match *self{"@ + spec_opcode_arms(msgs, msgs.len() as int) + "}}"@
}

/// Emit the opcode function of one side's message sum.
pub fn generate_opcode_fn(messages: &Vec<crate::scanner::MessageDesc>) -> (r: String)
    requires
        messages@.len() < 0xFFFF_FFFF,
    ensures
        r@ == spec_opcode_fn(messages.deep_view()),
{
    let mut buf = String::new();
    buf.append("fn opcode(&self)->u16{match *self{");
    let n = messages.len();
    let mut i: usize = 0;
    let ghost pre = buf@;
    proof {
        crate::scanner::lemma_vec_deep_view_is(messages);
    }
    while i < n
        invariant
            i <= n,
            n < 0xFFFF_FFFF,
            n == messages@.len(),
            messages.deep_view().len() == n,
            pre == "fn opcode(&self)->u16{match *self{"@,
            buf@ == pre + spec_opcode_arms(messages.deep_view(), i as int),
        decreases n - i,
    {
        buf.append("Self::");
        let camel = snake_to_camel(messages[i].name.as_str());
        let sane = sanitize_enum_variant_name(camel.as_str());
        buf.append(sane.as_str());
        if messages[i].arguments.len() > 0 {
            buf.append("(_)");
        }
        buf.append(" => ");
        let t = u32_text(i as u32);
        buf.append(t.as_str());
        buf.append(",");
        proof {
            assert(messages.deep_view()[i as int] == messages@[i as int]@);
            assert(sane@ == spec_sanitize_plain(
                spec_snake_to_camel(messages.deep_view()[i as int].name),
            ));
            assert(buf@ =~= pre + spec_opcode_arms(messages.deep_view(), i + 1 as int));
        }
        i = i + 1;
    }
    buf.append("}}");
    proof {
        assert(buf@ =~= spec_opcode_fn(messages.deep_view()));
    }
    buf
}

/// The writer line of one argument: how a typed field turns back into a
/// dynamic argument, the exact mirror of the parser's reading.
pub open spec fn spec_writer_step(a: ArgumentDescView) -> Seq<char> {
    let f = a.name;
    match a.arg_type {
        ArgumentType::Int => "args.push(DynArgument::Int(data."@ + f + ".into()));"@,
        ArgumentType::Uint => "args.push(DynArgument::Uint(data."@ + f + ".into()));"@,
        ArgumentType::Fixed => "args.push(DynArgument::Fixed(data."@ + f + "));"@,
        ArgumentType::String => {
            if a.allow_null {
                "args.push(DynArgument::String(data."@ + f + ".clone()));"@
            } else {
                "args.push(DynArgument::String(Some(data."@ + f + ".clone())));"@
            }
        },
        ArgumentType::Object => {
            if a.allow_null {
                "args.push(DynArgument::Object(data."@ + f
                    + ".as_ref().map(|object|client_map.try_get_id(object.clone())).transpose()?));"@
            } else {
                "args.push(DynArgument::Object(Some(client_map.try_get_id(data."@ + f
                    + ".clone())?)));"@
            }
        },
        ArgumentType::NewId => {
            "let(id,title) = client_map.try_get_new_id(&data."@ + f
                + ");args.push(DynArgument::NewId(id,"@ + (if a.interface is None {
                "Some(title)"@
            } else {
                "None"@
            }) + "));"@
        },
        ArgumentType::Array => "args.push(DynArgument::Array(data."@ + f + ".clone()));"@,
        ArgumentType::Fd => "args.push(DynArgument::Fd(data."@ + f + "));"@,
    }
}

/// The writer lines of a whole message, in argument order.
pub open spec fn spec_writer_steps(args: Seq<ArgumentDescView>) -> Seq<char>
    decreases args.len(),
{
    if args.len() == 0 {
        Seq::empty()
    } else {
        spec_writer_steps(args.drop_last()) + spec_writer_step(args.last())
    }
}

/// Emit the writer body of one message: each field pushed back as the
/// dynamic argument its schema slot reads.
pub fn generate_message_writer(message: &crate::scanner::MessageDesc) -> (r: String)
    ensures
        r@ == spec_writer_steps(message@.arguments),
{
    let mut buf = String::new();
    let n = message.arguments.len();
    let mut i: usize = 0;
    proof {
        crate::scanner::lemma_vec_deep_view_is(&message.arguments);
    }
    while i < n
        invariant
            i <= n,
            n == message.arguments@.len(),
            message@.arguments.len() == n,
            buf@ == spec_writer_steps(message@.arguments.take(i as int)),
        decreases n - i,
    {
        let step = writer_step_text(&message.arguments[i]);
        buf.append(step.as_str());
        proof {
            assert(message@.arguments[i as int] == message.arguments@[i as int]@);
            assert(message@.arguments.take(i + 1 as int).drop_last() =~= message@.arguments.take(
                i as int,
            ));
            assert(buf@ =~= spec_writer_steps(message@.arguments.take(i + 1 as int)));
        }
        i = i + 1;
    }
    proof {
        assert(message@.arguments.take(n as int) =~= message@.arguments);
    }
    buf
}

/// Emit the writer line of one argument.
fn writer_step_text(a: &crate::scanner::ArgumentDesc) -> (r: String)
    ensures
        r@ == spec_writer_step(a@),
{
    let mut buf = String::new();
    match a.arg_type {
        ArgumentType::Int => {
            buf.append("args.push(DynArgument::Int(data.");
            buf.append(a.name.as_str());
            buf.append(".into()));");
        },
        ArgumentType::Uint => {
            buf.append("args.push(DynArgument::Uint(data.");
            buf.append(a.name.as_str());
            buf.append(".into()));");
        },
        ArgumentType::Fixed => {
            buf.append("args.push(DynArgument::Fixed(data.");
            buf.append(a.name.as_str());
            buf.append("));");
        },
        ArgumentType::String => {
            if a.allow_null {
                buf.append("args.push(DynArgument::String(data.");
                buf.append(a.name.as_str());
                buf.append(".clone()));");
            } else {
                buf.append("args.push(DynArgument::String(Some(data.");
                buf.append(a.name.as_str());
                buf.append(".clone())));");
            }
        },
        ArgumentType::Object => {
            if a.allow_null {
                buf.append("args.push(DynArgument::Object(data.");
                buf.append(a.name.as_str());
                buf.append(
                    ".as_ref().map(|object|client_map.try_get_id(object.clone())).transpose()?));",
                );
            } else {
                buf.append("args.push(DynArgument::Object(Some(client_map.try_get_id(data.");
                buf.append(a.name.as_str());
                buf.append(".clone())?)));");
            }
        },
        ArgumentType::NewId => {
            buf.append("let(id,title) = client_map.try_get_new_id(&data.");
            buf.append(a.name.as_str());
            buf.append(");args.push(DynArgument::NewId(id,");
            if a.interface.is_none() {
                buf.append("Some(title)");
            } else {
                buf.append("None");
            }
            buf.append("));");
        },
        ArgumentType::Array => {
            buf.append("args.push(DynArgument::Array(data.");
            buf.append(a.name.as_str());
            buf.append(".clone()));");
        },
        ArgumentType::Fd => {
            buf.append("args.push(DynArgument::Fd(data.");
            buf.append(a.name.as_str());
            buf.append("));");
        },
    }
    proof {
        assert(buf@ =~= spec_writer_step(a@));
    }
    buf
}

/// The field lines of a message's payload struct: one public field per
/// declared argument, with its mapped type.
pub open spec fn spec_msg_fields(args: Seq<ArgumentDescView>) -> Seq<char>
    decreases args.len(),
{
    if args.len() == 0 {
        Seq::empty()
    } else {
        spec_msg_fields(args.drop_last()) + "pub "@ + args.last().name + ": "@
            + spec_argument_type_text(args.last()) + ","@
    }
}

/// The payload struct one message spells: its camel-cased name with the
/// side suffix, and one field per argument.
pub open spec fn spec_message_struct_text(
    m: crate::scanner::MessageDescView,
    side: MessageSide,
) -> Seq<char> {
    "#[derive(Debug)]pub struct "@ + spec_snake_to_camel(m.name) + spec_side_str(side) + "{"@
        + spec_msg_fields(m.arguments) + "}"@
}

/// Emit the payload struct of one message.
#[verifier::rlimit(30)]
pub fn generate_message_struct_definition(
    message: &crate::scanner::MessageDesc,
    side: MessageSide,
) -> (r: String)
    ensures
        r@ == spec_message_struct_text(message@, side),
{
    let mut buf = String::new();
    buf.append("#[derive(Debug)]pub struct ");
    let camel = snake_to_camel(message.name.as_str());
    buf.append(camel.as_str());
    buf.append(side.as_str());
    buf.append("{");
    let ghost pre = buf@;
    let n = message.arguments.len();
    let mut i: usize = 0;
    proof {
        crate::scanner::lemma_vec_deep_view_is(&message.arguments);
    }
    while i < n
        invariant
            i <= n,
            n == message.arguments@.len(),
            message@.arguments.len() == n,
            pre == "#[derive(Debug)]pub struct "@ + spec_snake_to_camel(message@.name)
                + spec_side_str(side) + "{"@,
            buf@ == pre + spec_msg_fields(message@.arguments.take(i as int)),
        decreases n - i,
    {
        buf.append("pub ");
        buf.append(message.arguments[i].name.as_str());
        buf.append(": ");
        let t = generate_argument_type(&message.arguments[i]);
        buf.append(t.as_str());
        buf.append(",");
        proof {
            assert(message@.arguments[i as int] == message.arguments@[i as int]@);
            assert(message@.arguments.take(i + 1 as int).drop_last() =~= message@.arguments.take(
                i as int,
            ));
            assert(buf@ =~= pre + spec_msg_fields(message@.arguments.take(i + 1 as int)));
        }
        i = i + 1;
    }
    buf.append("}");
    proof {
        assert(message@.arguments.take(n as int) =~= message@.arguments);
        assert(buf@ =~= spec_message_struct_text(message@, side));
    }
    buf
}

/// The variant lines of a message sum: a unit variant for a message with no
/// arguments, otherwise a newtype variant carrying its payload struct.
pub open spec fn spec_msg_variants(
    msgs: Seq<crate::scanner::MessageDescView>,
    side: MessageSide,
) -> Seq<char>
    decreases msgs.len(),
{
    if msgs.len() == 0 {
        Seq::empty()
    } else {
        spec_msg_variants(msgs.drop_last(), side) + spec_snake_to_camel(msgs.last().name) + (
        if msgs.last().arguments.len() == 0 {
            Seq::<char>::empty()
        } else {
            "("@ + spec_snake_to_camel(msgs.last().name) + spec_side_str(side) + ")"@
        }) + ","@
    }
}

/// The message sum one side of an interface spells.
pub open spec fn spec_message_enum_text(
    iface_name: Seq<char>,
    msgs: Seq<crate::scanner::MessageDescView>,
    side: MessageSide,
) -> Seq<char> {
    "#[derive(Debug)]pub enum "@ + spec_snake_to_camel(iface_name) + spec_side_str(side) + "{"@
        + spec_msg_variants(msgs, side) + "}"@
}

/// Emit the message sum of one side of an interface.
#[verifier::rlimit(30)]
pub fn generate_message_enum(
    interface_name: &str,
    messages: &Vec<crate::scanner::MessageDesc>,
    side: MessageSide,
) -> (r: String)
    ensures
        r@ == spec_message_enum_text(interface_name@, messages.deep_view(), side),
{
    let mut buf = String::new();
    buf.append("#[derive(Debug)]pub enum ");
    let camel = snake_to_camel(interface_name);
    buf.append(camel.as_str());
    buf.append(side.as_str());
    buf.append("{");
    let ghost pre = buf@;
    let n = messages.len();
    let mut i: usize = 0;
    proof {
        crate::scanner::lemma_vec_deep_view_is(messages);
    }
    while i < n
        invariant
            i <= n,
            n == messages@.len(),
            messages.deep_view().len() == n,
            pre == "#[derive(Debug)]pub enum "@ + spec_snake_to_camel(interface_name@)
                + spec_side_str(side) + "{"@,
            buf@ == pre + spec_msg_variants(messages.deep_view().take(i as int), side),
        decreases n - i,
    {
        let mname = snake_to_camel(messages[i].name.as_str());
        buf.append(mname.as_str());
        if messages[i].arguments.len() > 0 {
            buf.append("(");
            buf.append(mname.as_str());
            buf.append(side.as_str());
            buf.append(")");
        }
        buf.append(",");
        proof {
            assert(messages.deep_view()[i as int] == messages@[i as int]@);
            assert(messages.deep_view().take(i + 1 as int).drop_last()
                =~= messages.deep_view().take(i as int));
            assert(buf@ =~= pre + spec_msg_variants(
                messages.deep_view().take(i + 1 as int),
                side,
            ));
        }
        i = i + 1;
    }
    buf.append("}");
    proof {
        assert(messages.deep_view().take(n as int) =~= messages.deep_view());
        assert(buf@ =~= spec_message_enum_text(interface_name@, messages.deep_view(), side));
    }
    buf
}

/// The match arms of the emitted `from_args`: each opcode to its message
/// parser.
pub open spec fn spec_from_args_arms(
    iface: Seq<char>,
    msgs: Seq<crate::scanner::MessageDescView>,
    side: MessageSide,
    k: int,
) -> Seq<char>
    decreases k,
{
    if k <= 0 {
        Seq::empty()
    } else {
        spec_from_args_arms(iface, msgs, side, k - 1) + spec_u32_text(k - 1) + " => {"@
            + spec_message_parser_text(iface, msgs[k - 1], side) + "},"@
    }
}

/// The whole emitted `from_args`: arguments pulled off a dynamic reader,
/// one arm per declared opcode, unknown opcodes refused.
pub open spec fn spec_from_args_fn_text(
    iface: Seq<char>,
    msgs: Seq<crate::scanner::MessageDescView>,
    side: MessageSide,
) -> Seq<char> {
    "fn from_args(client_map:Self::ClientMap,opcode:u16,args:Vec<DynArgument>)->Result<Self,FromArgsError>{let mut reader = DynArgumentReader::from_args(args);Ok(match opcode{"@
        + spec_from_args_arms(iface, msgs, side, msgs.len() as int)
        + "_=>return Err(FromArgsError::UnknownOpcode(opcode)),})}"@
}

/// Emit the `from_args` conversion of one side's message sum.
#[verifier::rlimit(30)]
pub fn generate_from_args_fn(
    interface_name: &str,
    messages: &Vec<crate::scanner::MessageDesc>,
    side: MessageSide,
) -> (r: String)
    requires
        messages@.len() < 0xFFFF_FFFF,
        forall|k: int|
            0 <= k < messages@.len() ==> (#[trigger] messages@[k]).arguments@.len()
                < 0xFFFF_FFFF,
    ensures
        r@ == spec_from_args_fn_text(interface_name@, messages.deep_view(), side),
{
    let mut buf = String::new();
    buf.append(
        "fn from_args(client_map:Self::ClientMap,opcode:u16,args:Vec<DynArgument>)->Result<Self,FromArgsError>{let mut reader = DynArgumentReader::from_args(args);Ok(match opcode{",
    );
    let ghost pre = buf@;
    let n = messages.len();
    let mut i: usize = 0;
    proof {
        crate::scanner::lemma_vec_deep_view_is(messages);
    }
    while i < n
        invariant
            i <= n,
            n < 0xFFFF_FFFF,
            n == messages@.len(),
            messages.deep_view().len() == n,
            forall|k: int|
                0 <= k < messages@.len() ==> (#[trigger] messages@[k]).arguments@.len()
                    < 0xFFFF_FFFF,
            pre == "fn from_args(client_map:Self::ClientMap,opcode:u16,args:Vec<DynArgument>)->Result<Self,FromArgsError>{let mut reader = DynArgumentReader::from_args(args);Ok(match opcode{"@,
            buf@ == pre + spec_from_args_arms(
                interface_name@,
                messages.deep_view(),
                side,
                i as int,
            ),
        decreases n - i,
    {
        proof {
            assert(messages@[i as int].arguments@.len() < 0xFFFF_FFFF);
        }
        let opcode_text = u32_text(i as u32);
        buf.append(opcode_text.as_str());
        buf.append(" => {");
        let parser = generate_message_parser(interface_name, &messages[i], side);
        buf.append(parser.as_str());
        buf.append("},");
        proof {
            assert(messages.deep_view()[i as int] == messages@[i as int]@);
            assert(buf@ =~= pre + spec_from_args_arms(
                interface_name@,
                messages.deep_view(),
                side,
                i + 1 as int,
            ));
        }
        i = i + 1;
    }
    buf.append("_=>return Err(FromArgsError::UnknownOpcode(opcode)),})}");
    proof {
        assert(buf@ =~= spec_from_args_fn_text(interface_name@, messages.deep_view(), side));
    }
    buf
}

/// The match arms of the emitted `into_args`: each variant writes its
/// fields back as dynamic arguments.
pub open spec fn spec_into_args_arms(
    msgs: Seq<crate::scanner::MessageDescView>,
    k: int,
) -> Seq<char>
    decreases k,
{
    if k <= 0 {
        Seq::empty()
    } else {
        spec_into_args_arms(msgs, k - 1) + "Self::"@ + spec_snake_to_camel(msgs[k - 1].name) + (
        if msgs[k - 1].arguments.len() == 0 {
            Seq::<char>::empty()
        } else {
            "(ref data)"@
        }) + " => {"@ + spec_writer_steps(msgs[k - 1].arguments) + "},"@
    }
}

/// The whole emitted `into_args`: the opcode, then each field written in
/// schema order.
pub open spec fn spec_into_args_fn_text(msgs: Seq<crate::scanner::MessageDescView>) -> Seq<
    char,
> {
    "fn into_args(&self,client_map:Self::ClientMap)->Result<(u16,Vec<DynArgument>),IntoArgsError>{let opcode = self.opcode();let mut args = Vec::new();match *self{"@
        + spec_into_args_arms(msgs, msgs.len() as int) + "}Ok((opcode,args))}"@
}

/// Emit the `into_args` conversion of one side's message sum.
#[verifier::rlimit(30)]
pub fn generate_into_args_fn(messages: &Vec<crate::scanner::MessageDesc>) -> (r: String)
    ensures
        r@ == spec_into_args_fn_text(messages.deep_view()),
{
    let mut buf = String::new();
    buf.append(
        "fn into_args(&self,client_map:Self::ClientMap)->Result<(u16,Vec<DynArgument>),IntoArgsError>{let opcode = self.opcode();let mut args = Vec::new();match *self{",
    );
    let ghost pre = buf@;
    let n = messages.len();
    let mut i: usize = 0;
    proof {
        crate::scanner::lemma_vec_deep_view_is(messages);
    }
    while i < n
        invariant
            i <= n,
            n == messages@.len(),
            messages.deep_view().len() == n,
            pre == "fn into_args(&self,client_map:Self::ClientMap)->Result<(u16,Vec<DynArgument>),IntoArgsError>{let opcode = self.opcode();let mut args = Vec::new();match *self{"@,
            buf@ == pre + spec_into_args_arms(messages.deep_view(), i as int),
        decreases n - i,
    {
        buf.append("Self::");
        let camel = snake_to_camel(messages[i].name.as_str());
        buf.append(camel.as_str());
        if messages[i].arguments.len() > 0 {
            buf.append("(ref data)");
        }
        buf.append(" => {");
        let writer = generate_message_writer(&messages[i]);
        buf.append(writer.as_str());
        buf.append("},");
        proof {
            assert(messages.deep_view()[i as int] == messages@[i as int]@);
            assert(buf@ =~= pre + spec_into_args_arms(messages.deep_view(), i + 1 as int));
        }
        i = i + 1;
    }
    buf.append("}Ok((opcode,args))}");
    proof {
        assert(buf@ =~= spec_into_args_fn_text(messages.deep_view()));
    }
    buf
}

/// The whole emitted `Message` implementation of one side's sum: opcode,
/// parse and write, bound to the runtime's client map.
pub open spec fn spec_message_impl_text(
    iface: Seq<char>,
    msgs: Seq<crate::scanner::MessageDescView>,
    side: MessageSide,
) -> Seq<char> {
    "impl Message for "@ + spec_snake_to_camel(iface) + spec_side_str(side)
        + "{type ClientMap = ClientMap;"@ + spec_opcode_fn(msgs) + spec_from_args_fn_text(
        iface,
        msgs,
        side,
    ) + spec_into_args_fn_text(msgs) + "}"@
}

/// Emit the `Message` implementation of one side's message sum.
pub fn generate_message_impl(
    interface_name: &str,
    messages: &Vec<crate::scanner::MessageDesc>,
    side: MessageSide,
) -> (r: String)
    requires
        messages@.len() < 0xFFFF_FFFF,
        forall|k: int|
            0 <= k < messages@.len() ==> (#[trigger] messages@[k]).arguments@.len()
                < 0xFFFF_FFFF,
    ensures
        r@ == spec_message_impl_text(interface_name@, messages.deep_view(), side),
{
    let mut buf = String::new();
    buf.append("impl Message for ");
    let camel = snake_to_camel(interface_name);
    buf.append(camel.as_str());
    buf.append(side.as_str());
    buf.append("{type ClientMap = ClientMap;");
    let opcodes = generate_opcode_fn(messages);
    buf.append(opcodes.as_str());
    let from_args = generate_from_args_fn(interface_name, messages, side);
    buf.append(from_args.as_str());
    let into_args = generate_into_args_fn(messages);
    buf.append(into_args.as_str());
    buf.append("}");
    proof {
        assert(buf@ =~= spec_message_impl_text(interface_name@, messages.deep_view(), side));
    }
    buf
}

/// Counts small enough for opcode numbering and parser slot naming.
pub open spec fn interface_bounded(iv: crate::scanner::InterfaceDescView) -> bool {
    &&& iv.requests.len() < 0xFFFF_FFFF
    &&& iv.events.len() < 0xFFFF_FFFF
    &&& forall|k: int|
        0 <= k < iv.requests.len() ==> (#[trigger] iv.requests[k]).message.arguments.len()
            < 0xFFFF_FFFF
    &&& forall|k: int|
        0 <= k < iv.events.len() ==> (#[trigger] iv.events[k]).message.arguments.len()
            < 0xFFFF_FFFF
}

/// The emitted `Interface` implementation: the marker type publishes the
/// name, the version and both schema tables.
pub open spec fn spec_interface_impl_text(iv: crate::scanner::InterfaceDescView) -> Seq<char> {
    let c = spec_snake_to_camel(iv.name);
    "impl Interface for "@ + c + "{type Request = "@ + c + "Request;type Event = "@ + c
        + "Event;const NAME:&'static str = \""@ + iv.name + "\";const VERSION:u32 = "@
        + spec_i32_text(iv.version) + ";const REQUESTS:&'static [&'static [ArgumentDesc]] = "@
        + "&["@ + spec_arg_arrays(crate::scanner::request_messages(iv.requests)) + "]"@
        + ";const EVENTS:&'static [&'static [ArgumentDesc]] = "@ + "&["@ + spec_arg_arrays(
        crate::scanner::event_messages(iv.events),
    ) + "]"@ + ";fn new()->Self{Self}}"@
}

/// Emit the `Interface` implementation of one interface.
#[verifier::rlimit(60)]
pub fn generate_interface_impl(interface: &crate::scanner::InterfaceDesc) -> (r: String)
    ensures
        r@ == spec_interface_impl_text(interface@),
{
    let camel = snake_to_camel(interface.name.as_str());
    let mut buf = String::new();
    buf.append("impl Interface for ");
    buf.append(camel.as_str());
    buf.append("{type Request = ");
    buf.append(camel.as_str());
    buf.append("Request;type Event = ");
    buf.append(camel.as_str());
    buf.append("Event;const NAME:&'static str = \"");
    buf.append(interface.name.as_str());
    buf.append("\";const VERSION:u32 = ");
    let version = i32_text(interface.version);
    buf.append(version.as_str());
    buf.append(";const REQUESTS:&'static [&'static [ArgumentDesc]] = ");
    let req_msgs = crate::scanner::request_messages_vec(&interface.requests);
    let req_tables = generate_arg_arrays(&req_msgs);
    buf.append(req_tables.as_str());
    buf.append(";const EVENTS:&'static [&'static [ArgumentDesc]] = ");
    let ev_msgs = crate::scanner::event_messages_vec(&interface.events);
    let ev_tables = generate_arg_arrays(&ev_msgs);
    buf.append(ev_tables.as_str());
    buf.append(";fn new()->Self{Self}}");
    proof {
        assert(req_tables@ == "&["@ + spec_arg_arrays(
            crate::scanner::request_messages(interface@.requests),
        ) + "]"@);
        assert(ev_tables@ == "&["@ + spec_arg_arrays(
            crate::scanner::event_messages(interface@.events),
        ) + "]"@);
        assert(buf@ =~= spec_interface_impl_text(interface@));
    }
    buf
}

/// The declared enums of an interface, emitted in order.
pub open spec fn spec_enums_text(ens: Seq<crate::scanner::EnumDescView>, k: int) -> Seq<char>
    decreases k,
{
    if k <= 0 {
        Seq::empty()
    } else {
        spec_enums_text(ens, k - 1) + spec_enum_definition_text(ens[k - 1])
    }
}

/// The payload structs of one side's messages, emitted in order.
pub open spec fn spec_msg_structs_text(
    msgs: Seq<crate::scanner::MessageDescView>,
    side: MessageSide,
    k: int,
) -> Seq<char>
    decreases k,
{
    if k <= 0 {
        Seq::empty()
    } else {
        spec_msg_structs_text(msgs, side, k - 1) + spec_message_struct_text(msgs[k - 1], side)
    }
}

/// The whole module one interface spells: its marker type, its `Interface`
/// implementation, its enums, and for each side the message sum, its
/// `Message` implementation and the payload structs.
pub open spec fn spec_interface_text(iv: crate::scanner::InterfaceDescView) -> Seq<char> {
    let c = spec_snake_to_camel(iv.name);
    let reqs = crate::scanner::request_messages(iv.requests);
    let evs = crate::scanner::event_messages(iv.events);
    "pub mod "@ + iv.name + "{#![allow(unused)]use super::*;"@
        + "#[derive(Debug,Clone,Copy)]pub struct "@ + c + ";"@ + spec_interface_impl_text(iv)
        + spec_enums_text(iv.enums, iv.enums.len() as int) + spec_message_enum_text(
        iv.name,
        reqs,
        MessageSide::Request,
    ) + spec_message_impl_text(iv.name, reqs, MessageSide::Request) + spec_msg_structs_text(
        reqs,
        MessageSide::Request,
        reqs.len() as int,
    ) + spec_message_enum_text(iv.name, evs, MessageSide::Event) + spec_message_impl_text(
        iv.name,
        evs,
        MessageSide::Event,
    ) + spec_msg_structs_text(evs, MessageSide::Event, evs.len() as int) + "}"@
}

/// Emit the whole module of one interface.
#[verifier::rlimit(100)]
pub fn generate_interface(interface: &crate::scanner::InterfaceDesc) -> (r: String)
    requires
        interface_bounded(interface@),
    ensures
        r@ == spec_interface_text(interface@),
{
    let camel = snake_to_camel(interface.name.as_str());
    let mut buf = String::new();
    buf.append("pub mod ");
    buf.append(interface.name.as_str());
    buf.append("{#![allow(unused)]use super::*;");
    buf.append("#[derive(Debug,Clone,Copy)]pub struct ");
    buf.append(camel.as_str());
    buf.append(";");
    let iface_impl = generate_interface_impl(interface);
    buf.append(iface_impl.as_str());
    let ghost pre_enums = buf@;
    let n = interface.enums.len();
    let mut i: usize = 0;
    proof {
        crate::scanner::lemma_vec_deep_view_is(&interface.enums);
    }
    while i < n
        invariant
            i <= n,
            n == interface.enums@.len(),
            interface.enums.deep_view().len() == n,
            interface.enums.deep_view() == interface@.enums,
            buf@ == pre_enums + spec_enums_text(interface@.enums, i as int),
        decreases n - i,
    {
        let e = generate_enum_definition(&interface.enums[i]);
        buf.append(e.as_str());
        proof {
            assert(interface@.enums[i as int] == interface.enums@[i as int]@);
            assert(buf@ =~= pre_enums + spec_enums_text(interface@.enums, i + 1 as int));
        }
        i = i + 1;
    }
    let req_msgs = crate::scanner::request_messages_vec(&interface.requests);
    let ev_msgs = crate::scanner::event_messages_vec(&interface.events);
    proof {
        assert forall|k: int|
            0 <= k < req_msgs@.len() implies (#[trigger] req_msgs@[k]).arguments@.len()
            < 0xFFFF_FFFF by {
            assert(req_msgs.deep_view()[k] == req_msgs@[k]@);
            assert(req_msgs.deep_view()[k]
                == crate::scanner::request_messages(interface@.requests)[k]);
        }
        assert forall|k: int|
            0 <= k < ev_msgs@.len() implies (#[trigger] ev_msgs@[k]).arguments@.len()
            < 0xFFFF_FFFF by {
            assert(ev_msgs.deep_view()[k] == ev_msgs@[k]@);
            assert(ev_msgs.deep_view()[k]
                == crate::scanner::event_messages(interface@.events)[k]);
        }
    }
    let req_enum = generate_message_enum(interface.name.as_str(), &req_msgs, MessageSide::Request);
    buf.append(req_enum.as_str());
    let req_impl = generate_message_impl(interface.name.as_str(), &req_msgs, MessageSide::Request);
    buf.append(req_impl.as_str());
    let ghost pre_req_structs = buf@;
    let rn = req_msgs.len();
    let mut j: usize = 0;
    while j < rn
        invariant
            j <= rn,
            rn == req_msgs@.len(),
            req_msgs.deep_view().len() == rn,
            req_msgs.deep_view() == crate::scanner::request_messages(interface@.requests),
            buf@ == pre_req_structs + spec_msg_structs_text(
                crate::scanner::request_messages(interface@.requests),
                MessageSide::Request,
                j as int,
            ),
        decreases rn - j,
    {
        let st = generate_message_struct_definition(&req_msgs[j], MessageSide::Request);
        buf.append(st.as_str());
        proof {
            assert(req_msgs.deep_view()[j as int] == req_msgs@[j as int]@);
            assert(buf@ =~= pre_req_structs + spec_msg_structs_text(
                crate::scanner::request_messages(interface@.requests),
                MessageSide::Request,
                j + 1 as int,
            ));
        }
        j = j + 1;
    }
    let ev_enum = generate_message_enum(interface.name.as_str(), &ev_msgs, MessageSide::Event);
    buf.append(ev_enum.as_str());
    let ev_impl = generate_message_impl(interface.name.as_str(), &ev_msgs, MessageSide::Event);
    buf.append(ev_impl.as_str());
    let ghost pre_ev_structs = buf@;
    let en = ev_msgs.len();
    let mut j2: usize = 0;
    while j2 < en
        invariant
            j2 <= en,
            en == ev_msgs@.len(),
            ev_msgs.deep_view().len() == en,
            ev_msgs.deep_view() == crate::scanner::event_messages(interface@.events),
            buf@ == pre_ev_structs + spec_msg_structs_text(
                crate::scanner::event_messages(interface@.events),
                MessageSide::Event,
                j2 as int,
            ),
        decreases en - j2,
    {
        let st = generate_message_struct_definition(&ev_msgs[j2], MessageSide::Event);
        buf.append(st.as_str());
        proof {
            assert(ev_msgs.deep_view()[j2 as int] == ev_msgs@[j2 as int]@);
            assert(buf@ =~= pre_ev_structs + spec_msg_structs_text(
                crate::scanner::event_messages(interface@.events),
                MessageSide::Event,
                j2 + 1 as int,
            ));
        }
        j2 = j2 + 1;
    }
    buf.append("}");
    proof {
        assert(buf@ =~= spec_interface_text(interface@));
    }
    buf
}

/// The interface modules of a protocol, in order.
pub open spec fn spec_interfaces_text(
    ifs: Seq<crate::scanner::InterfaceDescView>,
    k: int,
) -> Seq<char>
    decreases k,
{
    if k <= 0 {
        Seq::empty()
    } else {
        spec_interfaces_text(ifs, k - 1) + spec_interface_text(ifs[k - 1])
    }
}

/// The re-export lines of the emitted prelude module.
pub open spec fn spec_prelude_uses_text(
    ifs: Seq<crate::scanner::InterfaceDescView>,
    k: int,
) -> Seq<char>
    decreases k,
{
    if k <= 0 {
        Seq::empty()
    } else {
        let c = spec_snake_to_camel(ifs[k - 1].name);
        spec_prelude_uses_text(ifs, k - 1) + "pub use super::"@ + ifs[k - 1].name + "::{self,"@
            + c + ","@ + c + "Request,"@ + c + "Event};"@
    }
}

/// The whole emitted artifact of one protocol: every interface module,
/// then a prelude re-exporting each interface's marker and message sums.
pub open spec fn spec_api_text(pv: crate::scanner::ProtocolDescView) -> Seq<char> {
    spec_interfaces_text(pv.interfaces, pv.interfaces.len() as int) + "pub mod prelude{"@
        + spec_prelude_uses_text(pv.interfaces, pv.interfaces.len() as int) + "}"@
}

/// Emit the whole typed-binding artifact of one protocol.
#[verifier::rlimit(100)]
pub fn generate_api(protocol: &crate::scanner::ProtocolDesc) -> (r: String)
    requires
        forall|k: int|
            0 <= k < protocol@.interfaces.len() ==> interface_bounded(
                #[trigger] protocol@.interfaces[k],
            ),
    ensures
        r@ == spec_api_text(protocol@),
{
    let mut buf = String::new();
    let n = protocol.interfaces.len();
    let mut i: usize = 0;
    proof {
        crate::scanner::lemma_vec_deep_view_is(&protocol.interfaces);
    }
    while i < n
        invariant
            i <= n,
            n == protocol.interfaces@.len(),
            protocol.interfaces.deep_view().len() == n,
            protocol.interfaces.deep_view() == protocol@.interfaces,
            forall|k: int|
                0 <= k < protocol@.interfaces.len() ==> interface_bounded(
                    #[trigger] protocol@.interfaces[k],
                ),
            buf@ == spec_interfaces_text(protocol@.interfaces, i as int),
        decreases n - i,
    {
        proof {
            assert(protocol@.interfaces[i as int] == protocol.interfaces@[i as int]@);
        }
        let m = generate_interface(&protocol.interfaces[i]);
        buf.append(m.as_str());
        proof {
            assert(buf@ =~= spec_interfaces_text(protocol@.interfaces, i + 1 as int));
        }
        i = i + 1;
    }
    buf.append("pub mod prelude{");
    let ghost pre_uses = buf@;
    let mut j: usize = 0;
    while j < n
        invariant
            j <= n,
            n == protocol.interfaces@.len(),
            protocol.interfaces.deep_view().len() == n,
            protocol.interfaces.deep_view() == protocol@.interfaces,
            pre_uses == spec_interfaces_text(protocol@.interfaces, n as int)
                + "pub mod prelude{"@,
            buf@ == pre_uses + spec_prelude_uses_text(protocol@.interfaces, j as int),
        decreases n - j,
    {
        buf.append("pub use super::");
        buf.append(protocol.interfaces[j].name.as_str());
        buf.append("::{self,");
        let c = snake_to_camel(protocol.interfaces[j].name.as_str());
        buf.append(c.as_str());
        buf.append(",");
        buf.append(c.as_str());
        buf.append("Request,");
        buf.append(c.as_str());
        buf.append("Event};");
        proof {
            assert(protocol@.interfaces[j as int] == protocol.interfaces@[j as int]@);
            assert(buf@ =~= pre_uses + spec_prelude_uses_text(
                protocol@.interfaces,
                j + 1 as int,
            ));
        }
        j = j + 1;
    }
    buf.append("}");
    proof {
        assert(buf@ =~= spec_api_text(protocol@));
    }
    buf
}

} // verus!
