//! The colour schemes of the output.

use vstd::prelude::*;
use vstd::string::StringExecFns;
use crate::dep::Dep;
use crate::text::{chars_of, lowercase, same_text, string_of_range, string_views};

verus! {

/// A colour scheme.
#[derive(Clone, Copy, Debug, PartialEq, Eq, Structural)]
pub enum DColor {
    WithoutColor,
    GOIDA,
    Osetia,
    Poland,
}

/// The choice of a colour scheme: a fixed one, or a new one at random for
/// each line.
#[derive(Debug, Clone, Copy, PartialEq, Eq, Structural)]
pub enum ColorType {
    One(DColor),
    Random,
}

/// `rand::random_range` on the range from zero up to, and without,
/// `bound`: some number of that range. Which one is not fixed.
#[verifier::external_body]
fn random_below(bound: u8) -> (r: u8)
    requires
        bound > 0,
    ensures
        r < bound,
{
    rand::random_range(0..bound)
}

/// The colour scheme that a name in lower case denotes. Unknown names
/// denote the scheme without colour.
pub open spec fn scheme_of_lowered(low: Seq<char>) -> DColor {
    if low == "rus"@ || low == "goool"@ || low == "goida"@ {
        DColor::GOIDA
    } else if low == "osetia"@ || low == "auto"@ {
        DColor::Osetia
    } else if low == "poland"@ {
        DColor::Poland
    } else {
        DColor::WithoutColor
    }
}

/// The colour scheme that a name denotes, read without regard to case:
/// what its lower-case form denotes.
pub open spec fn scheme_of(name: Seq<char>) -> DColor {
    scheme_of_lowered(lowercase(name))
}

/// The choice that a name in lower case denotes: `rand` and `random` ask
/// for a scheme at random, any other name for its scheme.
pub open spec fn choice_of_lowered(low: Seq<char>) -> ColorType {
    if low == "rand"@ || low == "random"@ {
        ColorType::Random
    } else {
        ColorType::One(scheme_of_lowered(low))
    }
}

/// The choice that a name denotes, read without regard to case: what its
/// lower-case form denotes.
pub open spec fn choice_of(name: Seq<char>) -> ColorType {
    choice_of_lowered(lowercase(name))
}

/// The coloured scheme with the given number; numbers from two on give the
/// last one.
pub open spec fn coloured(n: u8) -> DColor {
    if n == 0 {
        DColor::GOIDA
    } else if n == 1 {
        DColor::Osetia
    } else {
        DColor::Poland
    }
}

impl DColor {
    /// The coloured scheme with the given number.
    pub fn from_index(n: u8) -> (r: DColor)
        ensures
            r == coloured(n),
    {
        if n == 0 {
            DColor::GOIDA
        } else if n == 1 {
            DColor::Osetia
        } else {
            DColor::Poland
        }
    }

    /// One of the three coloured schemes, picked at random.
    pub fn get_random() -> (r: DColor)
        ensures
            r != DColor::WithoutColor,
    {
        DColor::from_index(random_below(3))
    }

    /// The colour scheme that the name `low`, which is in lower case,
    /// denotes.
    pub fn from_lowered(low: &str) -> (r: DColor)
        ensures
            r == scheme_of_lowered(low@),
    {
        if same_text(low, "rus") || same_text(low, "goool") || same_text(low, "goida") {
            DColor::GOIDA
        } else if same_text(low, "osetia") || same_text(low, "auto") {
            DColor::Osetia
        } else if same_text(low, "poland") {
            DColor::Poland
        } else {
            DColor::WithoutColor
        }
    }

    /// The colour scheme that `s` names.
    pub fn from(s: &str) -> (r: DColor)
        ensures
            r == scheme_of(s@),
    {
        let low = s.to_lowercase();
        DColor::from_lowered(low.as_str())
    }
}

impl Default for DColor {
    fn default() -> (r: DColor)
        ensures
            r == DColor::WithoutColor,
    {
        DColor::WithoutColor
    }
}

impl ColorType {
    /// The scheme to print the next line in: the fixed one, or one of the
    /// coloured schemes at random.
    pub fn get_dcolor(&self) -> (r: DColor)
        ensures
            match *self {
                ColorType::One(scheme) => r == scheme,
                ColorType::Random => r != DColor::WithoutColor,
            },
    {
        match self {
            ColorType::One(scheme) => *scheme,
            ColorType::Random => DColor::get_random(),
        }
    }

    /// The choice that the name `low`, which is in lower case, denotes.
    pub fn from_lowered(low: &str) -> (r: ColorType)
        ensures
            r == choice_of_lowered(low@),
    {
        if same_text(low, "rand") || same_text(low, "random") {
            ColorType::Random
        } else {
            ColorType::One(DColor::from_lowered(low))
        }
    }

    /// The choice that `s` names.
    pub fn from(s: &str) -> (r: ColorType)
        ensures
            r == choice_of(s@),
    {
        let low = s.to_lowercase();
        ColorType::from_lowered(low.as_str())
    }
}

impl Default for ColorType {
    fn default() -> (r: ColorType)
        ensures
            r == ColorType::One(DColor::WithoutColor),
    {
        ColorType::One(DColor::WithoutColor)
    }
}

/// How a piece of a line is set off.
#[derive(Clone, Copy, Debug, PartialEq, Eq, Structural)]
pub enum Tone {
    Plain,
    Bold,
    Dimmed,
    Blue,
    Yellow,
    Red,
    BoldRed,
}

/// A piece of a line: a text, how it is set off, and the width to which it
/// is filled up with blanks on the right.
#[derive(Clone, Debug)]
pub struct Span {
    pub text: String,
    pub tone: Tone,
    pub width: usize,
}

/// The mathematical content of a [`Span`].
pub struct Piece {
    pub text: Seq<char>,
    pub tone: Tone,
    pub width: nat,
}

impl View for Span {
    type V = Piece;

    open spec fn view(&self) -> Piece {
        Piece { text: self.text@, tone: self.tone, width: self.width as nat }
    }
}

/// The views of a line of spans.
pub open spec fn pieces_of(line: Seq<Span>) -> Seq<Piece> {
    line.map_values(|s: Span| s@)
}

/// A piece that is shown as it is.
pub open spec fn piece(text: Seq<char>, tone: Tone) -> Piece {
    Piece { text, tone, width: 0 }
}

/// `n` blanks.
pub open spec fn blanks(n: nat) -> Seq<char> {
    Seq::new(n, |i: int| ' ')
}

/// The items with `, ` between them.
pub open spec fn listed(items: Seq<Seq<char>>) -> Seq<char>
    decreases items.len(),
{
    if items.len() == 0 {
        Seq::empty()
    } else if items.len() == 1 {
        items[0]
    } else {
        listed(items.drop_last()) + ", "@ + items.last()
    }
}

/// The tone of a version in a scheme.
pub open spec fn version_tone(scheme: DColor) -> Tone {
    match scheme {
        DColor::WithoutColor => Tone::Plain,
        DColor::GOIDA => Tone::Blue,
        DColor::Osetia => Tone::Yellow,
        DColor::Poland => Tone::Red,
    }
}

/// What is left of a width after `used` characters; nothing where more
/// were used.
pub open spec fn rest_of(width: nat, used: nat) -> nat {
    if width >= used {
        (width - used) as nat
    } else {
        0
    }
}

/// The pieces of a version in two halves, the second one red: the first
/// half as it is, the second filled up to what the first leaves of `width`.
pub open spec fn halves(version: Seq<char>, width: nat) -> Seq<Piece> {
    let half = version.len() / 2;
    seq![
        piece(version.take(half as int), Tone::Plain),
        Piece {
            text: version.skip(half as int),
            tone: Tone::Red,
            width: rest_of(width, half),
        },
    ]
}

/// The pieces of a version: in halves in the scheme of two halves where
/// `split` is set, else one piece in the tone of the scheme, filled up to
/// `width`.
pub open spec fn version_pieces(version: Seq<char>, width: nat, scheme: DColor, split: bool) -> Seq<
    Piece,
> {
    if split && scheme == DColor::Poland {
        halves(version, width)
    } else {
        seq![Piece { text: version, tone: version_tone(scheme), width }]
    }
}

/// The line that shows a dependency: its name, `@`, its version and, where
/// it selects features, `:` and the features.
///
/// The name is bold, but plain in the scheme without colour where no
/// features are selected. The version has the tone of the scheme; in the
/// scheme of two halves it is shown in halves where features are selected.
/// The features are red in every coloured scheme.
pub open spec fn full_line(
    name: Seq<char>,
    version: Seq<char>,
    features: Option<Seq<Seq<char>>>,
    name_width: nat,
    version_width: nat,
    tab: nat,
    scheme: DColor,
) -> Seq<Piece> {
    let name_tone = if scheme == DColor::WithoutColor && features is None {
        Tone::Plain
    } else {
        Tone::Bold
    };
    let head = seq![
        piece(blanks(tab), Tone::Plain),
        Piece { text: name, tone: name_tone, width: name_width },
        piece(" "@, Tone::Plain),
        piece("@"@, Tone::Dimmed),
        piece(" "@, Tone::Plain),
    ];
    match features {
        None => head.push(Piece { text: version, tone: version_tone(scheme), width: version_width }),
        Some(fs) => {
            let shown = if scheme == DColor::Poland {
                halves(version, version_width)
            } else {
                seq![Piece { text: version, tone: version_tone(scheme), width: version_width }]
            };
            let feature_tone = if scheme == DColor::WithoutColor {
                Tone::Plain
            } else {
                Tone::Red
            };
            head + shown + seq![
                piece(" "@, Tone::Plain),
                piece(":"@, Tone::Dimmed),
                piece(" "@, Tone::Plain),
                piece(listed(fs), feature_tone),
            ]
        },
    }
}

/// The line that shows a dependency going from an old version to a new
/// one: its name, the old version, `->` and the new version.
///
/// The old version has the tone of the scheme, and is shown in halves in
/// the scheme of two halves. The new version is bold, and red too in every
/// coloured scheme.
pub open spec fn update_line(
    name: Seq<char>,
    version: Seq<char>,
    old_version: Seq<char>,
    name_width: nat,
    version_width: nat,
    tab: nat,
    scheme: DColor,
) -> Seq<Piece> {
    let head = seq![
        piece(blanks(tab), Tone::Plain),
        Piece { text: name, tone: Tone::Bold, width: name_width },
        piece(" "@, Tone::Plain),
    ];
    let shown = if scheme == DColor::Poland {
        halves(old_version, version_width)
    } else {
        seq![Piece { text: old_version, tone: version_tone(scheme), width: version_width }]
    };
    let new_tone = if scheme == DColor::WithoutColor {
        Tone::Bold
    } else {
        Tone::BoldRed
    };
    head + shown + seq![
        piece(" "@, Tone::Plain),
        piece("->"@, Tone::Dimmed),
        piece(" "@, Tone::Plain),
        piece(version, new_tone),
    ]
}

/// A span that is shown as it is.
pub fn span(text: &str, tone: Tone) -> (r: Span)
    ensures
        r@ == piece(text@, tone),
{
    Span { text: text.to_owned(), tone, width: 0 }
}

/// A span of `n` blanks.
pub fn blank_span(n: usize) -> (r: Span)
    ensures
        r@ == piece(blanks(n as nat), Tone::Plain),
{
    let mut text = String::new();
    let mut i: usize = 0;
    while i < n
        invariant
            i <= n,
            text@ == blanks(i as nat),
        decreases n - i,
    {
        text.append(" ");
        proof {
            reveal_strlit(" ");
            assert(" "@ =~= seq![' ']);
            assert(blanks(i as nat) + seq![' '] =~= blanks((i + 1) as nat));
        }
        i += 1;
    }
    Span { text, tone: Tone::Plain, width: 0 }
}

/// The items with `, ` between them.
pub fn join_listed(items: &Vec<String>) -> (r: String)
    ensures
        r@ == listed(string_views(items@)),
{
    let mut out = String::new();
    let mut i: usize = 0;
    while i < items.len()
        invariant
            i <= items.len(),
            out@ == listed(string_views(items@).take(i as int)),
        decreases items.len() - i,
    {
        proof {
            assert(string_views(items@).take(i + 1).drop_last() =~= string_views(items@).take(
                i as int,
            ));
            assert(string_views(items@).take(i + 1).last() == items@[i as int]@);
            if i == 0 {
                assert(Seq::<char>::empty() + items@[0]@ =~= items@[0]@);
            }
        }
        if i > 0 {
            out.append(", ");
        }
        out.append(items[i].as_str());
        i += 1;
    }
    proof {
        assert(string_views(items@).take(items.len() as int) =~= string_views(items@));
    }
    out
}

/// The tone of a version in a scheme.
pub fn tone_of_version(scheme: DColor) -> (r: Tone)
    ensures
        r == version_tone(scheme),
{
    match scheme {
        DColor::WithoutColor => Tone::Plain,
        DColor::GOIDA => Tone::Blue,
        DColor::Osetia => Tone::Yellow,
        DColor::Poland => Tone::Red,
    }
}

/// Adds the spans of a version to a line: in halves in the scheme of two
/// halves where `split` is set, else in one span of the scheme's tone.
pub fn push_version(line: &mut Vec<Span>, version: &str, width: usize, scheme: DColor, split: bool)
    ensures
        pieces_of(final(line)@) == pieces_of(old(line)@) + version_pieces(
            version@,
            width as nat,
            scheme,
            split,
        ),
{
    let ghost before = pieces_of(line@);
    if split && scheme == DColor::Poland {
        let v = chars_of(version);
        let half = v.len() / 2;
        let left = Span { text: string_of_range(&v, 0, half), tone: Tone::Plain, width: 0 };
        let right = Span {
            text: string_of_range(&v, half, v.len()),
            tone: Tone::Red,
            width: if width >= half {
                width - half
            } else {
                0
            },
        };
        proof {
            assert(v@.subrange(0, half as int) =~= version@.take(half as int));
            assert(v@.subrange(half as int, v.len() as int) =~= version@.skip(half as int));
        }
        line.push(left);
        line.push(right);
        proof {
            assert(pieces_of(line@) =~= before + halves(version@, width as nat));
        }
    } else {
        let whole = Span { text: version.to_owned(), tone: tone_of_version(scheme), width };
        line.push(whole);
        proof {
            assert(pieces_of(line@) =~= before + seq![whole@]);
        }
    }
}

/// The line that shows a dependency by its parts.
pub fn dep_full_line(
    dname: &str,
    dver: &str,
    dfeat: Option<&Vec<String>>,
    mnl: usize,
    mvl: usize,
    tabbing: usize,
    dct: DColor,
) -> (line: Vec<Span>)
    ensures
        pieces_of(line@) == full_line(
            dname@,
            dver@,
            match dfeat {
                Some(fs) => Some(string_views(fs@)),
                None => None,
            },
            mnl as nat,
            mvl as nat,
            tabbing as nat,
            dct,
        ),
{
    let plain_name = dct == DColor::WithoutColor && dfeat.is_none();
    let mut line: Vec<Span> = Vec::new();
    line.push(blank_span(tabbing));
    line.push(
        Span {
            text: dname.to_owned(),
            tone: if plain_name {
                Tone::Plain
            } else {
                Tone::Bold
            },
            width: mnl,
        },
    );
    line.push(span(" ", Tone::Plain));
    line.push(span("@", Tone::Dimmed));
    line.push(span(" ", Tone::Plain));
    let ghost head = pieces_of(line@);
    proof {
        assert(head =~= seq![
            piece(blanks(tabbing as nat), Tone::Plain),
            Piece {
                text: dname@,
                tone: if plain_name {
                    Tone::Plain
                } else {
                    Tone::Bold
                },
                width: mnl as nat,
            },
            piece(" "@, Tone::Plain),
            piece("@"@, Tone::Dimmed),
            piece(" "@, Tone::Plain),
        ]);
    }
    match dfeat {
        None => {
            push_version(&mut line, dver, mvl, dct, false);
            proof {
                let last = Piece { text: dver@, tone: version_tone(dct), width: mvl as nat };
                assert(head + seq![last] =~= head.push(last));
            }
        },
        Some(fs) => {
            push_version(&mut line, dver, mvl, dct, true);
            let ghost middle = pieces_of(line@);
            line.push(span(" ", Tone::Plain));
            line.push(span(":", Tone::Dimmed));
            line.push(span(" ", Tone::Plain));
            let tone = if dct == DColor::WithoutColor {
                Tone::Plain
            } else {
                Tone::Red
            };
            let features = Span { text: join_listed(fs), tone, width: 0 };
            line.push(features);
            proof {
                assert(pieces_of(line@) =~= middle + seq![
                    piece(" "@, Tone::Plain),
                    piece(":"@, Tone::Dimmed),
                    piece(" "@, Tone::Plain),
                    piece(listed(string_views(fs@)), tone),
                ]);
            }
        },
    }
    line
}

/// The line that shows a dependency.
pub fn dep_line(dep: &Dep, mnl: usize, mvl: usize, tabbing: usize, dct: DColor) -> (line: Vec<Span>)
    ensures
        pieces_of(line@) == full_line(
            dep@.name,
            dep@.version,
            dep@.features,
            mnl as nat,
            mvl as nat,
            tabbing as nat,
            dct,
        ),
{
    match &dep.features {
        Some(fs) => dep_full_line(dep.name.as_str(), dep.version.as_str(), Some(fs), mnl, mvl, tabbing, dct),
        None => dep_full_line(dep.name.as_str(), dep.version.as_str(), None, mnl, mvl, tabbing, dct),
    }
}

/// The line that shows a dependency going from `oldv` to `dver`, by its
/// parts.
pub fn dep_update_line(
    dname: &str,
    dver: &str,
    oldv: &str,
    mnl: usize,
    mvl: usize,
    tabbing: usize,
    dct: DColor,
) -> (line: Vec<Span>)
    ensures
        pieces_of(line@) == update_line(
            dname@,
            dver@,
            oldv@,
            mnl as nat,
            mvl as nat,
            tabbing as nat,
            dct,
        ),
{
    let mut line: Vec<Span> = Vec::new();
    line.push(blank_span(tabbing));
    line.push(Span { text: dname.to_owned(), tone: Tone::Bold, width: mnl });
    line.push(span(" ", Tone::Plain));
    let ghost head = pieces_of(line@);
    proof {
        assert(head =~= seq![
            piece(blanks(tabbing as nat), Tone::Plain),
            Piece { text: dname@, tone: Tone::Bold, width: mnl as nat },
            piece(" "@, Tone::Plain),
        ]);
    }
    push_version(&mut line, oldv, mvl, dct, true);
    let ghost middle = pieces_of(line@);
    line.push(span(" ", Tone::Plain));
    line.push(span("->", Tone::Dimmed));
    line.push(span(" ", Tone::Plain));
    let tone = if dct == DColor::WithoutColor {
        Tone::Bold
    } else {
        Tone::BoldRed
    };
    line.push(span(dver, tone));
    proof {
        assert(pieces_of(line@) =~= middle + seq![
            piece(" "@, Tone::Plain),
            piece("->"@, Tone::Dimmed),
            piece(" "@, Tone::Plain),
            piece(dver@, tone),
        ]);
    }
    line
}

/// The line that shows the dependency `dep` going from `oldv` to its
/// version.
pub fn dep_version_update_line(
    dep: &Dep,
    oldv: &str,
    mnl: usize,
    mvl: usize,
    tabbing: usize,
    dct: DColor,
) -> (line: Vec<Span>)
    ensures
        pieces_of(line@) == update_line(
            dep@.name,
            dep@.version,
            oldv@,
            mnl as nat,
            mvl as nat,
            tabbing as nat,
            dct,
        ),
{
    dep_update_line(dep.name.as_str(), dep.version.as_str(), oldv, mnl, mvl, tabbing, dct)
}

} // verus!
