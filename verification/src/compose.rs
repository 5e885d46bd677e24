//! Writing a token from its parts, and what the parser makes of it.

use vstd::prelude::*;
use crate::error::{Failure, Section};
use crate::parse::{accumulates, after, opens, parse_spec, step, followed, Progress, Request};
use crate::text::{alphanumeric, trimmed};

verus! {

/// Whether `c` can stand inside the text of `section`: the section takes it
/// up, and it is no delimiter that would open another section from there.
pub open spec fn belongs(section: Section, c: char) -> bool {
    accumulates(section, c) && opens(section, c) is None
}

/// Whether every character of `text` can stand inside `section`.
pub open spec fn fits(section: Section, text: Seq<char>) -> bool {
    forall|i: int| 0 <= i < text.len() ==> belongs(section, #[trigger] text[i])
}

/// Whether `text` can follow the delimiter of `section`: it fits the
/// section and begins with a letter or digit.
pub open spec fn fits_after_delimiter(section: Section, text: Seq<char>) -> bool {
    text.len() > 0 && alphanumeric(text[0]) && fits(section, text)
}

/// A part of a token behind its delimiter; nothing where the part is left
/// out.
pub open spec fn delimited(delimiter: char, part: Option<Seq<char>>) -> Seq<char> {
    match part {
        Some(text) => seq![delimiter] + text,
        None => Seq::empty(),
    }
}

/// The token `name@version:features!target`, each part but the name being
/// optional.
pub open spec fn written(
    name: Seq<char>,
    version: Option<Seq<char>>,
    features: Option<Seq<char>>,
    target: Option<Seq<char>>,
) -> Seq<char> {
    name + delimited('@', version) + delimited(':', features) + delimited('!', target)
}

/// The text of a part; empty where the part is left out.
pub open spec fn text_of(part: Option<Seq<char>>) -> Seq<char> {
    match part {
        Some(text) => text,
        None => Seq::empty(),
    }
}

/// Characters that fit the current section are all taken up by it.
pub proof fn lemma_absorbs(s: Seq<char>, i: int, j: int, p: Progress)
    requires
        0 <= i <= j <= s.len(),
        after(s, i) == Ok::<Progress, Progress>(p),
        fits(p.section, s.subrange(i, j)),
    ensures
        after(s, j) == Ok::<Progress, Progress>(p.absorb_all(s.subrange(i, j))),
    decreases j - i,
{
    if i == j {
        assert(s.subrange(i, j) =~= Seq::<char>::empty());
        assert(p.name + Seq::<char>::empty() =~= p.name);
        assert(p.version + Seq::<char>::empty() =~= p.version);
        assert(p.features + Seq::<char>::empty() =~= p.features);
        assert(p.target + Seq::<char>::empty() =~= p.target);
    } else {
        let shorter = s.subrange(i, j - 1);
        assert forall|k: int| 0 <= k < shorter.len() implies belongs(
            p.section,
            #[trigger] shorter[k],
        ) by {
            assert(shorter[k] == s.subrange(i, j)[k]);
        }
        lemma_absorbs(s, i, j - 1, p);
        let q = p.absorb_all(shorter);
        let c = s[j - 1];
        assert(c == s.subrange(i, j)[j - 1 - i]);
        assert(belongs(p.section, c));
        assert(step(q, s, j - 1) == Some(q.absorb(c)));
        assert(s.subrange(i, j) =~= shorter.push(c));
        assert((p.name + shorter).push(c) =~= p.name + shorter.push(c));
        assert((p.version + shorter).push(c) =~= p.version + shorter.push(c));
        assert((p.features + shorter).push(c) =~= p.features + shorter.push(c));
        assert((p.target + shorter).push(c) =~= p.target + shorter.push(c));
    }
}

/// A delimiter followed by a text that fits its section opens that section
/// and fills it with the text.
pub proof fn lemma_reads_part(
    s: Seq<char>,
    i: int,
    p: Progress,
    delimiter: char,
    section: Section,
    text: Seq<char>,
)
    requires
        0 <= i,
        i + 1 + text.len() <= s.len(),
        after(s, i) == Ok::<Progress, Progress>(p),
        opens(p.section, delimiter) == Some(section),
        s.subrange(i, i + 1 + text.len()) == seq![delimiter] + text,
        fits_after_delimiter(section, text),
    ensures
        after(s, i + 1 + text.len()) == Ok::<Progress, Progress>(
            (Progress { section, ..p }).absorb_all(text),
        ),
{
    let whole = s.subrange(i, i + 1 + text.len());
    assert(s[i] == whole[0]);
    assert(s[i + 1] == whole[1]);
    assert(whole[1] == text[0]);
    assert(followed(s, i));
    let q = Progress { section, ..p };
    assert(step(p, s, i) == Some(q));
    assert(after(s, i + 1) == Ok::<Progress, Progress>(q));
    assert(s.subrange(i + 1, i + 1 + text.len()) =~= text) by {
        assert forall|k: int| 0 <= k < text.len() implies s[i + 1 + k] == text[k] by {
            assert(whole[k + 1] == s[i + 1 + k]);
        }
    }
    lemma_absorbs(s, i + 1, i + 1 + text.len(), q);
}

/// A token written from parts that fit their sections parses to exactly
/// those parts; a part that is left out comes back empty.
pub proof fn lemma_parse_written(
    name: Seq<char>,
    version: Option<Seq<char>>,
    features: Option<Seq<char>>,
    target: Option<Seq<char>>,
)
    requires
        fits(Section::Name, name),
        version matches Some(v) ==> fits_after_delimiter(Section::Version, v),
        features matches Some(f) ==> fits_after_delimiter(Section::Features, f),
        target matches Some(t) ==> fits_after_delimiter(Section::Target, t),
        written(name, version, features, target).len() > 0,
        trimmed(written(name, version, features, target)) == written(
            name,
            version,
            features,
            target,
        ),
    ensures
        parse_spec(written(name, version, features, target)) == Ok::<Request, Failure>(
            (Request {
                name,
                version: text_of(version),
                features: text_of(features),
                target: text_of(target),
            }),
        ),
{
    let s = written(name, version, features, target);
    let a = delimited('@', version);
    let b = delimited(':', features);
    let c = delimited('!', target);
    let name_end = name.len() as int;
    let version_end = name_end + a.len();
    let features_end = version_end + b.len();
    let target_end = features_end + c.len();
    assert(s.len() == target_end);
    assert(s.subrange(0, name_end) =~= name);
    assert(s.subrange(name_end, version_end) =~= a);
    assert(s.subrange(version_end, features_end) =~= b);
    assert(s.subrange(features_end, target_end) =~= c);
    let empty = Seq::<char>::empty();
    lemma_absorbs(s, 0, name_end, Progress::start());
    let with_name = Progress { name, ..Progress::start() };
    assert(Progress::start().absorb_all(name) == with_name) by {
        assert(empty + name =~= name);
    }
    let with_version = match version {
        Some(v) => Progress { section: Section::Version, version: v, ..with_name },
        None => with_name,
    };
    assert(after(s, version_end) == Ok::<Progress, Progress>(with_version)) by {
        match version {
            Some(v) => {
                lemma_reads_part(s, name_end, with_name, '@', Section::Version, v);
                assert(empty + v =~= v);
            },
            None => {},
        }
    }
    let with_features = match features {
        Some(f) => Progress { section: Section::Features, features: f, ..with_version },
        None => with_version,
    };
    assert(after(s, features_end) == Ok::<Progress, Progress>(with_features)) by {
        match features {
            Some(f) => {
                lemma_reads_part(s, version_end, with_version, ':', Section::Features, f);
                assert(empty + f =~= f);
            },
            None => {},
        }
    }
    let with_target = match target {
        Some(t) => Progress { section: Section::Target, target: t, ..with_features },
        None => with_features,
    };
    assert(after(s, target_end) == Ok::<Progress, Progress>(with_target)) by {
        match target {
            Some(t) => {
                lemma_reads_part(s, features_end, with_features, '!', Section::Target, t);
                assert(empty + t =~= t);
            },
            None => {},
        }
    }
}

/// A delimiter can open its section once only: sections are entered in the
/// order name, version, features, target, and none is entered again.
pub proof fn lemma_sections_move_forward(section: Section, c: char)
    ensures
        opens(section, c) matches Some(next) ==> rank(section) < rank(next),
{
}

/// The place of a section in the order in which sections are read.
pub open spec fn rank(section: Section) -> nat {
    match section {
        Section::Name => 0,
        Section::Version => 1,
        Section::Features => 2,
        Section::Target => 3,
    }
}

} // verus!
