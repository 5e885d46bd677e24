//! The dependency mini-language.
//!
//! A token has the shape `name@version:features!target`, where every part
//! but the name may be left out. A line of input holds several tokens
//! separated by `/`; a segment may also name a group of tokens or an alias.

use vstd::prelude::*;
use crate::error::{outcome, DepError, Failure, Section};
use crate::table::{find_key, keys_of, position};
use crate::text::{
    alphanumeric, chars_of, copy_range, split_chars, split_on, string_of, string_views, texts,
    trim_chars, trimmed,
};

verus! {

/// One parsed dependency token. An empty `version` asks for the latest
/// version, an empty `features` for no feature selection, an empty `target`
/// for the normal dependency table.
#[derive(Debug, Clone)]
pub struct PDep {
    pub name: String,
    pub version: String,
    pub features: String,
    pub target: String,
}

/// The mathematical content of a [`PDep`].
pub struct Request {
    pub name: Seq<char>,
    pub version: Seq<char>,
    pub features: Seq<char>,
    pub target: Seq<char>,
}

impl View for PDep {
    type V = Request;

    open spec fn view(&self) -> Request {
        Request {
            name: self.name@,
            version: self.version@,
            features: self.features@,
            target: self.target@,
        }
    }
}

/// What the parser has read so far, and where it stands.
pub struct Progress {
    pub section: Section,
    pub name: Seq<char>,
    pub version: Seq<char>,
    pub features: Seq<char>,
    pub target: Seq<char>,
}

impl Progress {
    /// The parser before the first character.
    pub open spec fn start() -> Progress {
        Progress {
            section: Section::Name,
            name: Seq::empty(),
            version: Seq::empty(),
            features: Seq::empty(),
            target: Seq::empty(),
        }
    }

    /// The progress with `c` added to the section being read.
    pub open spec fn absorb(self, c: char) -> Progress {
        match self.section {
            Section::Name => Progress { name: self.name.push(c), ..self },
            Section::Version => Progress { version: self.version.push(c), ..self },
            Section::Features => Progress { features: self.features.push(c), ..self },
            Section::Target => Progress { target: self.target.push(c), ..self },
        }
    }

    /// The progress with `text` added to the section being read.
    pub open spec fn absorb_all(self, text: Seq<char>) -> Progress {
        match self.section {
            Section::Name => Progress { name: self.name + text, ..self },
            Section::Version => Progress { version: self.version + text, ..self },
            Section::Features => Progress { features: self.features + text, ..self },
            Section::Target => Progress { target: self.target + text, ..self },
        }
    }

    /// The request that the progress amounts to when the token ends here.
    pub open spec fn request(self) -> Request {
        Request {
            name: self.name,
            version: self.version,
            features: self.features,
            target: self.target,
        }
    }

    /// The failure reported when the next character is not accepted.
    pub open spec fn failure(self) -> Failure {
        Failure::TokenParse {
            name: self.name,
            version: self.version,
            features: self.features,
            target: self.target,
            section: self.section,
        }
    }
}

/// Whether `c` is added to the text of `section`: letters and digits, `-`
/// and `_` everywhere, `.` in a version, `,` in a feature list.
pub open spec fn accumulates(section: Section, c: char) -> bool {
    ||| alphanumeric(c)
    ||| c == '-'
    ||| c == '_'
    ||| (section == Section::Version && c == '.')
    ||| (section == Section::Features && c == ',')
}

/// The section that the delimiter `c` opens when read in `section`, if any.
/// Sections only move forward, so no delimiter opens a section twice.
pub open spec fn opens(section: Section, c: char) -> Option<Section> {
    if c == '@' && section == Section::Name {
        Some(Section::Version)
    } else if c == ':' && (section == Section::Name || section == Section::Version) {
        Some(Section::Features)
    } else if c == '!' && section != Section::Target {
        Some(Section::Target)
    } else {
        None
    }
}

/// Whether the character after position `i` of `s` exists and is a letter
/// or digit: the condition under which a delimiter at `i` opens a section.
pub open spec fn followed(s: Seq<char>, i: int) -> bool {
    i + 1 < s.len() && alphanumeric(s[i + 1])
}

/// One move of the parser on the character at position `i`: a delimiter
/// that may open a section does so; any other character must belong to the
/// current section.
pub open spec fn step(p: Progress, s: Seq<char>, i: int) -> Option<Progress> {
    if followed(s, i) && opens(p.section, s[i]) is Some {
        Some(Progress { section: opens(p.section, s[i]).unwrap(), ..p })
    } else if accumulates(p.section, s[i]) {
        Some(p.absorb(s[i]))
    } else {
        None
    }
}

/// The parser after the first `n` characters of `s`: `Ok` with its progress,
/// or `Err` with the progress at the first character that was not accepted.
pub open spec fn after(s: Seq<char>, n: int) -> Result<Progress, Progress>
    decreases n,
{
    if n <= 0 {
        Ok(Progress::start())
    } else {
        match after(s, n - 1) {
            Ok(p) => match step(p, s, n - 1) {
                Some(q) => Ok(q),
                None => Err(p),
            },
            Err(p) => Err(p),
        }
    }
}

/// What a token parses to.
pub open spec fn parse_spec(s: Seq<char>) -> Result<Request, Failure> {
    let t = trimmed(s);
    if t.len() == 0 {
        Err(Failure::EmptyToken)
    } else {
        match after(t, t.len() as int) {
            Ok(p) => Ok(p.request()),
            Err(p) => Err(p.failure()),
        }
    }
}

/// Once a character was refused, the parser stays where it failed.
pub proof fn lemma_failure_stays(s: Seq<char>, n: int, m: int)
    requires
        0 <= n <= m,
        after(s, n) is Err,
    ensures
        after(s, m) == after(s, n),
    decreases m - n,
{
    if n < m {
        lemma_failure_stays(s, n, m - 1);
    }
}

/// Parses one dependency token.
///
/// Surrounding whitespace is ignored. An empty token is refused, and so is
/// one with a character that its section does not accept; the failure then
/// holds what was read up to that character.
pub fn parse_dep(s: &str) -> (r: Result<PDep, DepError>)
    ensures
        outcome(r) == parse_spec(s@),
{
    let raw = chars_of(s);
    let v = trim_chars(&raw);
    parse_chars(&v)
}

/// Parses a token whose surrounding whitespace has been removed.
pub fn parse_chars(v: &Vec<char>) -> (r: Result<PDep, DepError>)
    ensures
        v@.len() == 0 ==> outcome(r) == Err::<Request, Failure>(Failure::EmptyToken),
        v@.len() > 0 ==> outcome(r) == match after(v@, v@.len() as int) {
            Ok(p) => Ok::<Request, Failure>(p.request()),
            Err(p) => Err(p.failure()),
        },
{
    let n = v.len();
    if n == 0 {
        return Err(DepError::EmptyToken);
    }
    let mut name = String::new();
    let mut version = String::new();
    let mut features = String::new();
    let mut target = String::new();
    let mut section = Section::Name;
    let mut i: usize = 0;
    while i < n
        invariant
            i <= n == v.len(),
            after(v@, i as int) == Ok::<Progress, Progress>(
                Progress {
                    section,
                    name: name@,
                    version: version@,
                    features: features@,
                    target: target@,
                },
            ),
        decreases n - i,
    {
        let c = v[i];
        let ahead = i + 1 < n && v[i + 1].is_alphanumeric();
        let ghost here = Progress {
            section,
            name: name@,
            version: version@,
            features: features@,
            target: target@,
        };
        assert(ahead == followed(v@, i as int));
        if ahead && c == '@' && section == Section::Name {
            section = Section::Version;
        } else if ahead && c == ':' && (section == Section::Name || section == Section::Version) {
            section = Section::Features;
        } else if ahead && c == '!' && section != Section::Target {
            section = Section::Target;
        } else if c.is_alphanumeric() || c == '-' || c == '_' || (section == Section::Version && c
            == '.') || (section == Section::Features && c == ',') {
            match section {
                Section::Name => name.push(c),
                Section::Version => version.push(c),
                Section::Features => features.push(c),
                Section::Target => target.push(c),
            }
        } else {
            proof {
                assert(step(here, v@, i as int) is None);
                assert(after(v@, i + 1) == Err::<Progress, Progress>(here));
                lemma_failure_stays(v@, i + 1, n as int);
            }
            return Err(DepError::TokenParse { name, version, features, target, section });
        }
        i += 1;
    }
    Ok(PDep { name, version, features, target })
}

/// A named group of tokens: a segment that begins with `prefix` stands for
/// the tokens of the group.
#[derive(Debug, Clone)]
pub struct MacroGroup {
    pub prefix: String,
    pub tokens: Vec<String>,
}

/// Whether `s` begins with `prefix`.
pub open spec fn begins_with(s: Seq<char>, prefix: Seq<char>) -> bool {
    prefix.len() <= s.len() && s.take(prefix.len() as int) == prefix
}

/// The tokens of the first group whose prefix begins `segment`, if any.
pub open spec fn group_tokens(groups: Seq<MacroGroup>, segment: Seq<char>) -> Option<
    Seq<Seq<char>>,
>
    decreases groups.len(),
{
    if groups.len() == 0 {
        None
    } else if begins_with(segment, groups[0].prefix@) {
        Some(string_views(groups[0].tokens@))
    } else {
        group_tokens(groups.drop_first(), segment)
    }
}

/// The expansion of the alias whose name is exactly `segment`, if any.
pub open spec fn alias_of(aliases: Seq<(String, String)>, segment: Seq<char>) -> Option<Seq<char>> {
    match position(keys_of(aliases), segment) {
        Some(i) => Some(aliases[i].1@),
        None => None,
    }
}

/// The tokens that one segment of a line stands for: those of a group that
/// it matches; else the pieces of the alias that it names, which are not
/// looked up again; else the segment itself.
pub open spec fn expansion(
    groups: Seq<MacroGroup>,
    aliases: Seq<(String, String)>,
    segment: Seq<char>,
) -> Seq<Seq<char>> {
    match group_tokens(groups, segment) {
        Some(tokens) => tokens,
        None => match alias_of(aliases, segment) {
            Some(text) => split_on(text, '/'),
            None => seq![segment],
        },
    }
}

/// The tokens that a run of segments stands for, in order.
pub open spec fn expand_all(
    groups: Seq<MacroGroup>,
    aliases: Seq<(String, String)>,
    segments: Seq<Seq<char>>,
) -> Seq<Seq<char>>
    decreases segments.len(),
{
    if segments.len() == 0 {
        Seq::empty()
    } else {
        expand_all(groups, aliases, segments.drop_last()) + expansion(
            groups,
            aliases,
            segments.last(),
        )
    }
}

/// The tokens of a line: the line without surrounding whitespace is cut at
/// each `/`, and each segment is expanded.
pub open spec fn line_tokens(
    groups: Seq<MacroGroup>,
    aliases: Seq<(String, String)>,
    line: Seq<char>,
) -> Seq<Seq<char>> {
    expand_all(groups, aliases, split_on(trimmed(line), '/'))
}

/// What each token parses to.
pub open spec fn parse_each_spec(tokens: Seq<Seq<char>>) -> Seq<Result<Request, Failure>> {
    tokens.map_values(|t: Seq<char>| parse_spec(t))
}

/// All the requests where every token parsed, else the failure of the first
/// token that did not.
pub open spec fn gather(results: Seq<Result<Request, Failure>>) -> Result<Seq<Request>, Failure>
    decreases results.len(),
{
    if results.len() == 0 {
        Ok(Seq::empty())
    } else {
        match gather(results.drop_last()) {
            Err(e) => Err(e),
            Ok(requests) => match results.last() {
                Ok(r) => Ok(requests.push(r)),
                Err(e) => Err(e),
            },
        }
    }
}

/// The views of a list of requests.
pub open spec fn requests_of(v: Seq<PDep>) -> Seq<Request> {
    v.map_values(|d: PDep| d@)
}

/// The views of a list of parse results.
pub open spec fn outcomes_of(v: Seq<Result<PDep, DepError>>) -> Seq<Result<Request, Failure>> {
    v.map_values(|r: Result<PDep, DepError>| outcome(r))
}

/// Whether `s` begins with `prefix`.
pub fn starts_with(s: &Vec<char>, prefix: &Vec<char>) -> (r: bool)
    ensures
        r == begins_with(s@, prefix@),
{
    if prefix.len() > s.len() {
        return false;
    }
    let mut i: usize = 0;
    while i < prefix.len()
        invariant
            i <= prefix.len() <= s.len(),
            s@.take(i as int) == prefix@.take(i as int),
        decreases prefix.len() - i,
    {
        if s[i] != prefix[i] {
            proof {
                assert(s@.take(prefix.len() as int)[i as int] != prefix@[i as int]);
            }
            return false;
        }
        proof {
            assert(s@.take(i + 1) =~= s@.take(i as int).push(s@[i as int]));
            assert(prefix@.take(i + 1) =~= prefix@.take(i as int).push(prefix@[i as int]));
        }
        i += 1;
    }
    proof {
        assert(prefix@.take(prefix.len() as int) =~= prefix@);
    }
    true
}

/// The characters of each of `list`.
pub fn chars_of_each(list: &Vec<String>) -> (out: Vec<Vec<char>>)
    ensures
        texts(out@) == string_views(list@),
{
    let mut out: Vec<Vec<char>> = Vec::new();
    let mut i: usize = 0;
    while i < list.len()
        invariant
            i <= list.len(),
            texts(out@) == string_views(list@).take(i as int),
        decreases list.len() - i,
    {
        let ghost before = texts(out@);
        let item = chars_of(list[i].as_str());
        out.push(item);
        proof {
            assert(texts(out@) =~= before.push(item@));
            assert(string_views(list@).take(i + 1) =~= string_views(list@).take(i as int).push(
                list@[i as int]@,
            ));
        }
        i += 1;
    }
    proof {
        assert(string_views(list@).take(list.len() as int) =~= string_views(list@));
    }
    out
}

/// The tokens that `segment` stands for.
pub fn expand_segment(
    segment: &Vec<char>,
    groups: &Vec<MacroGroup>,
    aliases: &Vec<(String, String)>,
) -> (out: Vec<Vec<char>>)
    ensures
        texts(out@) == expansion(groups@, aliases@, segment@),
{
    let mut g: usize = 0;
    proof {
        assert(groups@.skip(0) =~= groups@);
    }
    while g < groups.len()
        invariant
            g <= groups.len(),
            group_tokens(groups@, segment@) == group_tokens(groups@.skip(g as int), segment@),
        decreases groups.len() - g,
    {
        let prefix = chars_of(groups[g].prefix.as_str());
        proof {
            assert(groups@.skip(g as int)[0] == groups@[g as int]);
            assert(groups@.skip(g as int).drop_first() =~= groups@.skip(g + 1));
        }
        if starts_with(segment, &prefix) {
            return chars_of_each(&groups[g].tokens);
        }
        g += 1;
    }
    let key = string_of(segment);
    match find_key(aliases, &key) {
        Some(i) => split_chars(&chars_of(aliases[i].1.as_str()), '/'),
        None => {
            let mut out: Vec<Vec<char>> = Vec::new();
            out.push(copy_range(segment, 0, segment.len()));
            proof {
                assert(segment@.subrange(0, segment.len() as int) =~= segment@);
                assert(texts(out@) =~= seq![segment@]);
            }
            out
        },
    }
}

/// The tokens of a line, expanded.
pub fn expand_line(line: &str, groups: &Vec<MacroGroup>, aliases: &Vec<(String, String)>) -> (out:
    Vec<Vec<char>>)
    ensures
        texts(out@) == line_tokens(groups@, aliases@, line@),
{
    let segments = split_chars(&trim_chars(&chars_of(line)), '/');
    let mut out: Vec<Vec<char>> = Vec::new();
    let mut i: usize = 0;
    proof {
        assert(texts(out@) =~= Seq::<Seq<char>>::empty());
    }
    while i < segments.len()
        invariant
            i <= segments.len(),
            texts(out@) == expand_all(groups@, aliases@, texts(segments@).take(i as int)),
        decreases segments.len() - i,
    {
        let mut piece = expand_segment(&segments[i], groups, aliases);
        let ghost before = texts(out@);
        let ghost added = texts(piece@);
        proof {
            assert(texts(segments@).take(i + 1).drop_last() =~= texts(segments@).take(i as int));
            assert(texts(segments@).take(i + 1).last() == segments@[i as int]@);
        }
        out.append(&mut piece);
        proof {
            assert(texts(out@) =~= before + added);
        }
        i += 1;
    }
    proof {
        assert(texts(segments@).take(segments.len() as int) =~= texts(segments@));
    }
    out
}

/// Parses every token of a line, expanding groups and aliases, and reports
/// the outcome of each token in order. One token's failure does not stop
/// the others from being parsed.
pub fn parse_each(line: &str, groups: &Vec<MacroGroup>, aliases: &Vec<(String, String)>) -> (out:
    Vec<Result<PDep, DepError>>)
    ensures
        outcomes_of(out@) == parse_each_spec(line_tokens(groups@, aliases@, line@)),
{
    let tokens = expand_line(line, groups, aliases);
    let mut out: Vec<Result<PDep, DepError>> = Vec::new();
    let mut i: usize = 0;
    proof {
        assert(outcomes_of(out@) =~= parse_each_spec(texts(tokens@).take(0)));
    }
    while i < tokens.len()
        invariant
            i <= tokens.len(),
            outcomes_of(out@) == parse_each_spec(texts(tokens@).take(i as int)),
        decreases tokens.len() - i,
    {
        let ghost before = outcomes_of(out@);
        let r = parse_chars(&trim_chars(&tokens[i]));
        out.push(r);
        proof {
            assert(outcome(r) == parse_spec(tokens@[i as int]@));
            assert(outcomes_of(out@) =~= before.push(outcome(r)));
            assert(parse_each_spec(texts(tokens@).take(i + 1)) =~= parse_each_spec(
                texts(tokens@).take(i as int),
            ).push(parse_spec(tokens@[i as int]@)));
        }
        i += 1;
    }
    proof {
        assert(texts(tokens@).take(tokens.len() as int) =~= texts(tokens@));
    }
    out
}

/// Parses every token of a line with the given groups and aliases: all the
/// requests in order, or the failure of the first token that did not parse.
pub fn parse_deps_with(line: &str, groups: &Vec<MacroGroup>, aliases: &Vec<(String, String)>) -> (r:
    Result<Vec<PDep>, DepError>)
    ensures
        match r {
            Ok(deps) => gather(parse_each_spec(line_tokens(groups@, aliases@, line@))) == Ok::<
                Seq<Request>,
                Failure,
            >(requests_of(deps@)),
            Err(e) => gather(parse_each_spec(line_tokens(groups@, aliases@, line@))) == Err::<
                Seq<Request>,
                Failure,
            >(e@),
        },
{
    let tokens = expand_line(line, groups, aliases);
    let ghost all = parse_each_spec(texts(tokens@));
    let mut out: Vec<PDep> = Vec::new();
    let mut i: usize = 0;
    proof {
        assert(all.take(0) =~= Seq::<Result<Request, Failure>>::empty());
        assert(requests_of(out@) =~= Seq::<Request>::empty());
    }
    while i < tokens.len()
        invariant
            i <= tokens.len(),
            all == parse_each_spec(texts(tokens@)),
            texts(tokens@) == line_tokens(groups@, aliases@, line@),
            gather(all.take(i as int)) == Ok::<Seq<Request>, Failure>(requests_of(out@)),
        decreases tokens.len() - i,
    {
        let ghost before = requests_of(out@);
        proof {
            assert(all.take(i + 1).drop_last() =~= all.take(i as int));
            assert(all.take(i + 1).last() == parse_spec(tokens@[i as int]@));
        }
        match parse_chars(&trim_chars(&tokens[i])) {
            Ok(d) => {
                out.push(d);
                proof {
                    assert(requests_of(out@) =~= before.push(d@));
                }
            },
            Err(e) => {
                proof {
                    assert(parse_spec(tokens@[i as int]@) == Err::<Request, Failure>(e@));
                    assert(gather(all.take(i + 1)) == Err::<Seq<Request>, Failure>(e@));
                    lemma_gather_failure_stays(all, i + 1);
                }
                return Err(e);
            },
        }
        i += 1;
    }
    proof {
        assert(all.take(tokens.len() as int) =~= all);
    }
    Ok(out)
}

/// Parses every token of a line, expanding aliases: all the requests in
/// order, or the failure of the first token that did not parse.
pub fn parse_deps(line: &str, aliases: &Vec<(String, String)>) -> (r: Result<Vec<PDep>, DepError>)
    ensures
        match r {
            Ok(deps) => gather(parse_each_spec(line_tokens(Seq::empty(), aliases@, line@))) == Ok::<
                Seq<Request>,
                Failure,
            >(requests_of(deps@)),
            Err(e) => gather(parse_each_spec(line_tokens(Seq::empty(), aliases@, line@))) == Err::<
                Seq<Request>,
                Failure,
            >(e@),
        },
{
    let groups: Vec<MacroGroup> = Vec::new();
    parse_deps_with(line, &groups, aliases)
}

/// Once a token has failed, the whole line fails with that failure.
pub proof fn lemma_gather_failure_stays(results: Seq<Result<Request, Failure>>, n: int)
    requires
        0 <= n <= results.len(),
        gather(results.take(n)) is Err,
    ensures
        gather(results) == gather(results.take(n)),
    decreases results.len() - n,
{
    if n < results.len() {
        assert(results.take(n + 1).drop_last() =~= results.take(n));
        lemma_gather_failure_stays(results, n + 1);
    } else {
        assert(results.take(n) =~= results);
    }
}

} // verus!
