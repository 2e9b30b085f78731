//! Reading a rule set from an SRX document.
//!
//! The document is a run of markup events. Reading it is a state machine
//! over those events: the state says where in the document the reader
//! stands and what it has gathered, and each event moves it on. Under the
//! root and in the header, elements that a rule set has no use for are
//! passed over with all that is in them; in the body an element that the
//! layout does not know fails the reading. Closing events are matched to
//! opening ones by nesting alone.
//!
//! The layout that is read:
//! `srx` holds `header`, whose `cascade` attribute says whether language map
//! entries go on after a match, and `body`; `body` holds `languagerules`
//! and `maprules`; `languagerules` holds `languagerule` elements, named by
//! `languagerulename`, of `rule` elements with a `break` attribute and the
//! texts of `beforebreak` and `afterbreak`; `maprules` holds `languagemap`
//! elements with `languagepattern` and `languagerulename`.
use vstd::prelude::*;
use crate::markup::{
    attribute_views,
    event_views,
    markup_of,
    read_markup,
    Attribute,
    AttributeView,
    MarkupEvent,
    MarkupEventView,
};
use crate::ruleset::Ruleset;
use crate::source::{
    compiled,
    group_source_views,
    log_views,
    map_source_views,
    optional_text,
    rule_source_views,
    Compiled,
    GroupErrors,
    GroupSource,
    GroupSourceView,
    MapSource,
    MapSourceView,
    ParseError,
    ParseErrorView,
    RuleSource,
    RuleSourceView,
    RulesetSource,
    RulesetSourceView,
};
use crate::text::same_text;

verus! {

/// Where in a document the reader stands.
#[derive(Clone, Copy, Debug)]
pub enum Place {
    /// Before the root element.
    Outside,
    /// In `srx`.
    Root,
    /// In `header`.
    Header,
    /// In `body`.
    Body,
    /// In `languagerules`.
    LanguageRules,
    /// In a `languagerule`.
    LanguageRule,
    /// In a `rule`.
    RuleBody,
    /// In a `beforebreak`.
    BeforeBreak,
    /// In an `afterbreak`.
    AfterBreak,
    /// In `maprules`.
    MapRules,
    /// In a `languagemap`.
    LanguageMap,
    /// After the root element.
    Done,
}

/// The state of a reading.
pub struct ReadingView {
    /// Where the reader stands.
    pub place: Place,
    /// How deep the reader is inside elements that it passes over.
    pub skipped: nat,
    /// What the header said of cascading, once it was read.
    pub cascade: Option<bool>,
    /// Whether `languagerules` was met.
    pub seen_rules: bool,
    /// Whether `maprules` was met.
    pub seen_maps: bool,
    /// The groups that are complete.
    pub groups: Seq<GroupSourceView>,
    /// The language map entries so far.
    pub maps: Seq<MapSourceView>,
    /// The name of the group being read.
    pub name: Seq<char>,
    /// The complete rules of the group being read.
    pub rules: Seq<RuleSourceView>,
    /// The before pattern of the rule being read.
    pub before: Option<Seq<char>>,
    /// The after pattern of the rule being read.
    pub after: Option<Seq<char>>,
    /// The break flag of the rule being read.
    pub breaks: bool,
}

/// The state before the first event.
pub open spec fn start() -> ReadingView {
    ReadingView {
        place: Place::Outside,
        skipped: 0,
        cascade: None,
        seen_rules: false,
        seen_maps: false,
        groups: Seq::empty(),
        maps: Seq::empty(),
        name: Seq::empty(),
        rules: Seq::empty(),
        before: None,
        after: None,
        breaks: false,
    }
}

/// The value of the first attribute, from index `from` on, that bears
/// `name`.
pub open spec fn attribute_value(attributes: Seq<AttributeView>, name: Seq<char>, from: int) -> Option<
    Seq<char>,
>
    decreases attributes.len() - from,
{
    if from < 0 || from >= attributes.len() {
        None
    } else if attributes[from].name == name {
        Some(attributes[from].value)
    } else {
        attribute_value(attributes, name, from + 1)
    }
}

/// What a yes-or-no attribute says, if it says either.
pub open spec fn flag(value: Seq<char>) -> Option<bool> {
    if value == "yes"@ {
        Some(true)
    } else if value == "no"@ {
        Some(false)
    } else {
        None
    }
}

/// What a yes-or-no attribute of an element says, or why the document
/// fails on it.
pub open spec fn flag_of(attributes: Seq<AttributeView>, name: Seq<char>) -> Result<
    bool,
    ParseErrorView,
> {
    match attribute_value(attributes, name, 0) {
        None => Err(ParseErrorView::Missing(name)),
        Some(value) => match flag(value) {
            None => Err(ParseErrorView::InvalidFlag(value)),
            Some(answer) => Ok(answer),
        },
    }
}

/// The state once it passes over an element that opens.
pub open spec fn passing_over(state: ReadingView) -> ReadingView {
    ReadingView { skipped: state.skipped + 1, ..state }
}

/// The state after an element opens.
pub open spec fn opened(state: ReadingView, name: Seq<char>, attributes: Seq<AttributeView>) -> Result<
    ReadingView,
    ParseErrorView,
> {
    if state.skipped > 0 {
        Ok(passing_over(state))
    } else {
        match state.place {
            Place::Outside => if name == "srx"@ {
                Ok(ReadingView { place: Place::Root, ..state })
            } else {
                Err(ParseErrorView::Missing("srx"@))
            },
            Place::Done => Err(ParseErrorView::Malformed("content after the rule set"@)),
            Place::Root => if name == "header"@ {
                match flag_of(attributes, "cascade"@) {
                    Err(error) => Err(error),
                    Ok(cascade) => Ok(
                        ReadingView { place: Place::Header, cascade: Some(cascade), ..state },
                    ),
                }
            } else if name == "body"@ {
                Ok(ReadingView { place: Place::Body, ..state })
            } else {
                Ok(passing_over(state))
            },
            Place::Body => if name == "languagerules"@ {
                Ok(ReadingView { place: Place::LanguageRules, seen_rules: true, ..state })
            } else if name == "maprules"@ {
                Ok(ReadingView { place: Place::MapRules, seen_maps: true, ..state })
            } else {
                Err(ParseErrorView::Unexpected(name))
            },
            Place::LanguageRules => if name == "languagerule"@ {
                match attribute_value(attributes, "languagerulename"@, 0) {
                    None => Err(ParseErrorView::Missing("languagerulename"@)),
                    Some(group) => Ok(
                        ReadingView {
                            place: Place::LanguageRule,
                            name: group,
                            rules: Seq::empty(),
                            ..state
                        },
                    ),
                }
            } else {
                Err(ParseErrorView::Unexpected(name))
            },
            Place::LanguageRule => if name == "rule"@ {
                match flag_of(attributes, "break"@) {
                    Err(error) => Err(error),
                    Ok(breaks) => Ok(
                        ReadingView {
                            place: Place::RuleBody,
                            before: None,
                            after: None,
                            breaks,
                            ..state
                        },
                    ),
                }
            } else {
                Err(ParseErrorView::Unexpected(name))
            },
            Place::RuleBody => if name == "beforebreak"@ {
                Ok(ReadingView { place: Place::BeforeBreak, before: Some(Seq::empty()), ..state })
            } else if name == "afterbreak"@ {
                Ok(ReadingView { place: Place::AfterBreak, after: Some(Seq::empty()), ..state })
            } else {
                Err(ParseErrorView::Unexpected(name))
            },
            Place::MapRules => if name == "languagemap"@ {
                match attribute_value(attributes, "languagepattern"@, 0) {
                    None => Err(ParseErrorView::Missing("languagepattern"@)),
                    Some(pattern) => match attribute_value(attributes, "languagerulename"@, 0) {
                        None => Err(ParseErrorView::Missing("languagerulename"@)),
                        Some(group) => match state.cascade {
                            None => Err(ParseErrorView::Missing("header"@)),
                            Some(cascade) => Ok(
                                ReadingView {
                                    place: Place::LanguageMap,
                                    maps: state.maps.push(
                                        MapSourceView {
                                            pattern,
                                            groups: seq![group],
                                            halt: !cascade,
                                        },
                                    ),
                                    ..state
                                },
                            ),
                        },
                    },
                }
            } else {
                Err(ParseErrorView::Unexpected(name))
            },
            Place::Header => Ok(passing_over(state)),
            Place::BeforeBreak | Place::AfterBreak | Place::LanguageMap => Err(
                ParseErrorView::Unexpected(name),
            ),
        }
    }
}

/// The state after the innermost open element closes.
pub open spec fn closed(state: ReadingView) -> Result<ReadingView, ParseErrorView> {
    if state.skipped > 0 {
        Ok(ReadingView { skipped: (state.skipped - 1) as nat, ..state })
    } else {
        match state.place {
            Place::Outside | Place::Done => Err(
                ParseErrorView::Malformed("an element closes that was not opened"@),
            ),
            Place::Root => Ok(ReadingView { place: Place::Done, ..state }),
            Place::Header | Place::Body => Ok(ReadingView { place: Place::Root, ..state }),
            Place::LanguageRules | Place::MapRules => Ok(
                ReadingView { place: Place::Body, ..state },
            ),
            Place::LanguageRule => Ok(
                ReadingView {
                    place: Place::LanguageRules,
                    groups: state.groups.push(
                        GroupSourceView { name: state.name, rules: state.rules },
                    ),
                    name: Seq::empty(),
                    rules: Seq::empty(),
                    ..state
                },
            ),
            Place::RuleBody => Ok(
                ReadingView {
                    place: Place::LanguageRule,
                    rules: state.rules.push(
                        RuleSourceView {
                            before: state.before,
                            after: state.after,
                            breaks: state.breaks,
                        },
                    ),
                    before: None,
                    after: None,
                    ..state
                },
            ),
            Place::BeforeBreak | Place::AfterBreak => Ok(
                ReadingView { place: Place::RuleBody, ..state },
            ),
            Place::LanguageMap => Ok(ReadingView { place: Place::MapRules, ..state }),
        }
    }
}

/// A pattern with more text at its end.
pub open spec fn extended(pattern: Option<Seq<char>>, text: Seq<char>) -> Option<Seq<char>> {
    match pattern {
        Some(pattern) => Some(pattern + text),
        None => Some(text),
    }
}

/// The state after character data. It counts only as the text of a
/// pattern.
pub open spec fn with_text(state: ReadingView, text: Seq<char>) -> ReadingView {
    if state.skipped > 0 {
        state
    } else {
        match state.place {
            Place::BeforeBreak => ReadingView { before: extended(state.before, text), ..state },
            Place::AfterBreak => ReadingView { after: extended(state.after, text), ..state },
            _ => state,
        }
    }
}

/// The state after one event, or why the document fails on it.
pub open spec fn step(state: ReadingView, event: MarkupEventView) -> Result<
    ReadingView,
    ParseErrorView,
> {
    match event {
        MarkupEventView::Open { name, attributes } => opened(state, name, attributes),
        MarkupEventView::Close => closed(state),
        MarkupEventView::Text(text) => Ok(with_text(state, text)),
        MarkupEventView::Other => Ok(state),
    }
}

/// The state after the first `count` events, or the first failure among
/// them.
pub open spec fn read(events: Seq<MarkupEventView>, count: int) -> Result<
    ReadingView,
    ParseErrorView,
>
    decreases count,
{
    if count <= 0 {
        Ok(start())
    } else {
        match read(events, count - 1) {
            Err(error) => Err(error),
            Ok(state) => step(state, events[count - 1]),
        }
    }
}

/// The rule set that a completed reading has gathered, or what the
/// document lacks.
pub open spec fn finished(state: ReadingView) -> Result<RulesetSourceView, ParseErrorView> {
    match state.place {
        Place::Outside => Err(ParseErrorView::Missing("srx"@)),
        Place::Done => if state.cascade is None {
            Err(ParseErrorView::Missing("header"@))
        } else if !state.seen_rules {
            Err(ParseErrorView::Missing("languagerules"@))
        } else if !state.seen_maps {
            Err(ParseErrorView::Missing("maprules"@))
        } else {
            Ok(RulesetSourceView { groups: state.groups, maps: state.maps })
        },
        _ => Err(ParseErrorView::Malformed("the document ends inside an element"@)),
    }
}

/// The rule set that a run of events writes down.
pub open spec fn written(events: Seq<MarkupEventView>) -> Result<
    RulesetSourceView,
    ParseErrorView,
> {
    match read(events, events.len() as int) {
        Err(error) => Err(error),
        Ok(state) => finished(state),
    }
}

/// The compiled rule set of a run of events, with its error log.
pub open spec fn interpreted(events: Seq<MarkupEventView>) -> Result<Compiled, ParseErrorView> {
    match written(events) {
        Err(error) => Err(error),
        Ok(source) => compiled(source),
    }
}

/// The compiled rule set of a document, given what the markup reader made
/// of it: a document that is not well-formed fails with the reader's words.
pub open spec fn parsed(markup: Result<Seq<MarkupEventView>, Seq<char>>) -> Result<
    Compiled,
    ParseErrorView,
> {
    match markup {
        Err(message) => Err(ParseErrorView::Malformed(message)),
        Ok(events) => interpreted(events),
    }
}

/// A failure among the first `count` events is the failure of the whole
/// run.
pub proof fn failed_read_fails(events: Seq<MarkupEventView>, count: int, total: int)
    requires
        0 <= count <= total,
        read(events, count) is Err,
    ensures
        read(events, total) == read(events, count),
    decreases total - count,
{
    if count < total {
        failed_read_fails(events, count, total - 1);
    }
}

/// The value of the first attribute that bears `name`.
fn find_attribute<'a>(attributes: &'a Vec<Attribute>, name: &str) -> (r: Option<&'a String>)
    ensures
        match r {
            Some(value) => attribute_value(attribute_views(attributes@), name@, 0) == Some(value@),
            None => attribute_value(attribute_views(attributes@), name@, 0) is None,
        },
{
    let ghost views = attribute_views(attributes@);
    let mut i: usize = 0;
    while i < attributes.len()
        invariant
            i <= attributes.len(),
            views == attribute_views(attributes@),
            attribute_value(views, name@, 0) == attribute_value(views, name@, i as int),
        decreases attributes.len() - i,
    {
        if same_text(attributes[i].name.as_str(), name) {
            assert(views[i as int].name == name@);
            assert(views[i as int].value == attributes@[i as int].value@);
            return Some(&attributes[i].value);
        }
        assert(views[i as int].name != name@);
        i += 1;
    }
    None
}

/// What a yes-or-no attribute of an element says, or why the document
/// fails on it.
fn read_flag(attributes: &Vec<Attribute>, name: &str) -> (r: Result<bool, ParseError>)
    ensures
        match r {
            Ok(answer) => flag_of(attribute_views(attributes@), name@) == Ok::<
                bool,
                ParseErrorView,
            >(answer),
            Err(error) => flag_of(attribute_views(attributes@), name@) == Err::<
                bool,
                ParseErrorView,
            >(error@),
        },
{
    match find_attribute(attributes, name) {
        None => Err(ParseError::Missing(String::from_str(name))),
        Some(value) => {
            if same_text(value.as_str(), "yes") {
                Ok(true)
            } else if same_text(value.as_str(), "no") {
                Ok(false)
            } else {
                Err(ParseError::InvalidFlag(value.clone()))
            }
        },
    }
}

/// A pattern with more text at its end.
fn extend(pattern: Option<String>, text: &str) -> (r: Option<String>)
    ensures
        optional_text(r) == extended(optional_text(pattern), text@),
{
    match pattern {
        Some(pattern) => Some(pattern.concat(text)),
        None => Some(String::from_str(text)),
    }
}

/// The state of a reading.
struct Reading {
    place: Place,
    skipped: usize,
    cascade: Option<bool>,
    seen_rules: bool,
    seen_maps: bool,
    groups: Vec<GroupSource>,
    maps: Vec<MapSource>,
    name: String,
    rules: Vec<RuleSource>,
    before: Option<String>,
    after: Option<String>,
    breaks: bool,
}

impl View for Reading {
    type V = ReadingView;

    closed spec fn view(&self) -> ReadingView {
        ReadingView {
            place: self.place,
            skipped: self.skipped as nat,
            cascade: self.cascade,
            seen_rules: self.seen_rules,
            seen_maps: self.seen_maps,
            groups: group_source_views(self.groups@),
            maps: map_source_views(self.maps@),
            name: self.name@,
            rules: rule_source_views(self.rules@),
            before: optional_text(self.before),
            after: optional_text(self.after),
            breaks: self.breaks,
        }
    }
}

impl Reading {
    /// The state before the first event.
    fn new() -> (r: Reading)
        ensures
            r@ == start(),
    {
        let r = Reading {
            place: Place::Outside,
            skipped: 0,
            cascade: None,
            seen_rules: false,
            seen_maps: false,
            groups: Vec::new(),
            maps: Vec::new(),
            name: String::new(),
            rules: Vec::new(),
            before: None,
            after: None,
            breaks: false,
        };
        proof {
            assert(r@.groups =~= Seq::<GroupSourceView>::empty());
            assert(r@.maps =~= Seq::<MapSourceView>::empty());
            assert(r@.rules =~= Seq::<RuleSourceView>::empty());
        }
        r
    }

    /// The state once it passes over an element that opens.
    fn pass_over(self) -> (r: Reading)
        requires
            self.skipped < usize::MAX,
        ensures
            r@ == passing_over(self@),
    {
        let mut state = self;
        state.skipped = state.skipped + 1;
        state
    }

    /// The state with the reader at another place.
    fn at(self, place: Place) -> (r: Reading)
        ensures
            r@ == (ReadingView { place, ..self@ }),
    {
        let mut state = self;
        state.place = place;
        state
    }

    /// The state after an element opens.
    fn open(self, name: &str, attributes: &Vec<Attribute>) -> (r: Result<Reading, ParseError>)
        requires
            self.skipped < usize::MAX,
        ensures
            match r {
                Ok(next) => opened(self@, name@, attribute_views(attributes@)) == Ok::<
                    ReadingView,
                    ParseErrorView,
                >(next@),
                Err(error) => opened(self@, name@, attribute_views(attributes@)) == Err::<
                    ReadingView,
                    ParseErrorView,
                >(error@),
            },
    {
        if self.skipped > 0 {
            return Ok(self.pass_over());
        }
        match self.place {
            Place::Outside => {
                if same_text(name, "srx") {
                    Ok(self.at(Place::Root))
                } else {
                    Err(ParseError::Missing(String::from_str("srx")))
                }
            },
            Place::Done => Err(ParseError::Malformed(String::from_str("content after the rule set"))),
            Place::Root => {
                if same_text(name, "header") {
                    match read_flag(attributes, "cascade") {
                        Err(error) => Err(error),
                        Ok(cascade) => {
                            let mut state = self;
                            state.place = Place::Header;
                            state.cascade = Some(cascade);
                            Ok(state)
                        },
                    }
                } else if same_text(name, "body") {
                    Ok(self.at(Place::Body))
                } else {
                    Ok(self.pass_over())
                }
            },
            Place::Body => {
                if same_text(name, "languagerules") {
                    let mut state = self;
                    state.place = Place::LanguageRules;
                    state.seen_rules = true;
                    Ok(state)
                } else if same_text(name, "maprules") {
                    let mut state = self;
                    state.place = Place::MapRules;
                    state.seen_maps = true;
                    Ok(state)
                } else {
                    Err(ParseError::Unexpected(String::from_str(name)))
                }
            },
            Place::LanguageRules => {
                if same_text(name, "languagerule") {
                    match find_attribute(attributes, "languagerulename") {
                        None => Err(ParseError::Missing(String::from_str("languagerulename"))),
                        Some(group) => {
                            let mut state = self;
                            state.place = Place::LanguageRule;
                            state.name = group.clone();
                            state.rules = Vec::new();
                            assert(state@.rules =~= Seq::<RuleSourceView>::empty());
                            Ok(state)
                        },
                    }
                } else {
                    Err(ParseError::Unexpected(String::from_str(name)))
                }
            },
            Place::LanguageRule => {
                if same_text(name, "rule") {
                    match read_flag(attributes, "break") {
                        Err(error) => Err(error),
                        Ok(breaks) => {
                            let mut state = self;
                            state.place = Place::RuleBody;
                            state.before = None;
                            state.after = None;
                            state.breaks = breaks;
                            Ok(state)
                        },
                    }
                } else {
                    Err(ParseError::Unexpected(String::from_str(name)))
                }
            },
            Place::RuleBody => {
                if same_text(name, "beforebreak") {
                    let mut state = self;
                    state.place = Place::BeforeBreak;
                    state.before = Some(String::new());
                    Ok(state)
                } else if same_text(name, "afterbreak") {
                    let mut state = self;
                    state.place = Place::AfterBreak;
                    state.after = Some(String::new());
                    Ok(state)
                } else {
                    Err(ParseError::Unexpected(String::from_str(name)))
                }
            },
            Place::MapRules => {
                if same_text(name, "languagemap") {
                    match find_attribute(attributes, "languagepattern") {
                        None => Err(ParseError::Missing(String::from_str("languagepattern"))),
                        Some(pattern) => match find_attribute(attributes, "languagerulename") {
                            None => Err(ParseError::Missing(String::from_str("languagerulename"))),
                            Some(group) => match self.cascade {
                                None => Err(ParseError::Missing(String::from_str("header"))),
                                Some(cascade) => {
                                    let mut state = self;
                                    let ghost maps = state@.maps;
                                    let mut groups: Vec<String> = Vec::new();
                                    groups.push(group.clone());
                                    let map = MapSource {
                                        pattern: pattern.clone(),
                                        groups,
                                        halt: !cascade,
                                    };
                                    assert(map@.groups =~= seq![group@]);
                                    state.place = Place::LanguageMap;
                                    state.maps.push(map);
                                    assert(state@.maps =~= maps.push(map@));
                                    Ok(state)
                                },
                            },
                        },
                    }
                } else {
                    Err(ParseError::Unexpected(String::from_str(name)))
                }
            },
            Place::Header => Ok(self.pass_over()),
            Place::BeforeBreak | Place::AfterBreak | Place::LanguageMap => Err(ParseError::Unexpected(String::from_str(name))),
        }
    }

    /// The state after the innermost open element closes.
    fn close(self) -> (r: Result<Reading, ParseError>)
        ensures
            match r {
                Ok(next) => closed(self@) == Ok::<ReadingView, ParseErrorView>(next@)
                    && next.skipped <= self.skipped,
                Err(error) => closed(self@) == Err::<ReadingView, ParseErrorView>(error@),
            },
    {
        if self.skipped > 0 {
            let mut state = self;
            state.skipped = state.skipped - 1;
            return Ok(state);
        }
        match self.place {
            Place::Outside | Place::Done => Err(
                ParseError::Malformed(String::from_str("an element closes that was not opened")),
            ),
            Place::Root => Ok(self.at(Place::Done)),
            Place::Header | Place::Body => Ok(self.at(Place::Root)),
            Place::LanguageRules | Place::MapRules => Ok(self.at(Place::Body)),
            Place::LanguageRule => {
                let ghost before = self@;
                let Reading {
                    place: _,
                    skipped,
                    cascade,
                    seen_rules,
                    seen_maps,
                    groups,
                    maps,
                    name,
                    rules,
                    before: before_pattern,
                    after,
                    breaks,
                } = self;
                let mut groups = groups;
                let group = GroupSource { name, rules };
                groups.push(group);
                let state = Reading {
                    place: Place::LanguageRules,
                    skipped,
                    cascade,
                    seen_rules,
                    seen_maps,
                    groups,
                    maps,
                    name: String::new(),
                    rules: Vec::new(),
                    before: before_pattern,
                    after,
                    breaks,
                };
                proof {
                    assert(state@.groups =~= before.groups.push(group@));
                    assert(state@.rules =~= Seq::<RuleSourceView>::empty());
                }
                Ok(state)
            },
            Place::RuleBody => {
                let ghost before = self@;
                let Reading {
                    place: _,
                    skipped,
                    cascade,
                    seen_rules,
                    seen_maps,
                    groups,
                    maps,
                    name,
                    rules,
                    before: before_pattern,
                    after,
                    breaks,
                } = self;
                let mut rules = rules;
                let rule = RuleSource { before: before_pattern, after, breaks };
                rules.push(rule);
                let state = Reading {
                    place: Place::LanguageRule,
                    skipped,
                    cascade,
                    seen_rules,
                    seen_maps,
                    groups,
                    maps,
                    name,
                    rules,
                    before: None,
                    after: None,
                    breaks,
                };
                proof {
                    assert(state@.rules =~= before.rules.push(rule@));
                }
                Ok(state)
            },
            Place::BeforeBreak | Place::AfterBreak => Ok(self.at(Place::RuleBody)),
            Place::LanguageMap => Ok(self.at(Place::MapRules)),
        }
    }

    /// The state after character data.
    fn add_text(self, text: &str) -> (r: Reading)
        ensures
            r@ == with_text(self@, text@),
            r.skipped == self.skipped,
    {
        if self.skipped > 0 {
            return self;
        }
        match self.place {
            Place::BeforeBreak => {
                let Reading {
                    place,
                    skipped,
                    cascade,
                    seen_rules,
                    seen_maps,
                    groups,
                    maps,
                    name,
                    rules,
                    before,
                    after,
                    breaks,
                } = self;
                Reading {
                    place,
                    skipped,
                    cascade,
                    seen_rules,
                    seen_maps,
                    groups,
                    maps,
                    name,
                    rules,
                    before: extend(before, text),
                    after,
                    breaks,
                }
            },
            Place::AfterBreak => {
                let Reading {
                    place,
                    skipped,
                    cascade,
                    seen_rules,
                    seen_maps,
                    groups,
                    maps,
                    name,
                    rules,
                    before,
                    after,
                    breaks,
                } = self;
                Reading {
                    place,
                    skipped,
                    cascade,
                    seen_rules,
                    seen_maps,
                    groups,
                    maps,
                    name,
                    rules,
                    before,
                    after: extend(after, text),
                    breaks,
                }
            },
            _ => self,
        }
    }

    /// The state after one event, or why the document fails on it.
    fn advance(self, event: &MarkupEvent) -> (r: Result<Reading, ParseError>)
        requires
            self.skipped < usize::MAX,
        ensures
            match r {
                Ok(next) => step(self@, event@) == Ok::<ReadingView, ParseErrorView>(next@)
                    && next.skipped <= self.skipped + 1,
                Err(error) => step(self@, event@) == Err::<ReadingView, ParseErrorView>(error@),
            },
    {
        match event {
            MarkupEvent::Open { name, attributes } => self.open(name.as_str(), attributes),
            MarkupEvent::Close => self.close(),
            MarkupEvent::Text(text) => Ok(self.add_text(text.as_str())),
            MarkupEvent::Other => Ok(self),
        }
    }

    /// The rule set that the reading has gathered, or what the document
    /// lacks.
    fn finish(self) -> (r: Result<RulesetSource, ParseError>)
        ensures
            match r {
                Ok(source) => finished(self@) == Ok::<RulesetSourceView, ParseErrorView>(source@),
                Err(error) => finished(self@) == Err::<RulesetSourceView, ParseErrorView>(error@),
            },
    {
        match self.place {
            Place::Outside => Err(ParseError::Missing(String::from_str("srx"))),
            Place::Done => {
                if self.cascade.is_none() {
                    Err(ParseError::Missing(String::from_str("header")))
                } else if !self.seen_rules {
                    Err(ParseError::Missing(String::from_str("languagerules")))
                } else if !self.seen_maps {
                    Err(ParseError::Missing(String::from_str("maprules")))
                } else {
                    Ok(RulesetSource { groups: self.groups, maps: self.maps })
                }
            },
            _ => Err(
                ParseError::Malformed(String::from_str("the document ends inside an element")),
            ),
        }
    }
}

/// Reads the rule set that a run of markup events writes down.
///
/// Fails where the events do not nest as a document does, where `srx`, its
/// `header` with `cascade`, `languagerules`, `maprules` or a required
/// attribute is absent, where the body holds an element that the layout
/// does not know, and where `cascade` or `break` says neither yes nor no.
pub fn read_source(events: &Vec<MarkupEvent>) -> (r: Result<RulesetSource, ParseError>)
    ensures
        match r {
            Ok(source) => written(event_views(events@)) == Ok::<
                RulesetSourceView,
                ParseErrorView,
            >(source@),
            Err(error) => written(event_views(events@)) == Err::<
                RulesetSourceView,
                ParseErrorView,
            >(error@),
        },
{
    let ghost views = event_views(events@);
    let mut state = Reading::new();
    let mut i: usize = 0;
    while i < events.len()
        invariant
            i <= events.len(),
            views == event_views(events@),
            read(views, i as int) == Ok::<ReadingView, ParseErrorView>(state@),
            state.skipped <= i,
        decreases events.len() - i,
    {
        match state.advance(&events[i]) {
            Err(error) => {
                proof {
                    failed_read_fails(views, i + 1, views.len() as int);
                }
                return Err(error);
            },
            Ok(next) => {
                state = next;
            },
        }
        i += 1;
    }
    state.finish()
}

/// Reads and compiles the rule set that a run of markup events writes
/// down, and hands it out with its error log.
pub fn interpret(events: &Vec<MarkupEvent>) -> (r: Result<(Ruleset, Vec<GroupErrors>), ParseError>)
    ensures
        match r {
            Ok(pair) => interpreted(event_views(events@)) == Ok::<Compiled, ParseErrorView>(
                Compiled { ruleset: pair.0@, log: log_views(pair.1@) },
            ),
            Err(error) => interpreted(event_views(events@)) == Err::<Compiled, ParseErrorView>(
                error@,
            ),
        },
{
    match read_source(events) {
        Err(error) => Err(error),
        Ok(source) => source.compile(),
    }
}

/// Parses an SRX document into a rule set and its error log.
///
/// The log holds, for each group in document order, what the engine said
/// of each rule that it refused; those rules are left out and the rest of
/// the rule set stands. The parse fails where the document is not
/// well-formed markup, where it is not laid out as a rule set, where a
/// language pattern is refused, and where a language map entry names a
/// group that does not exist.
pub fn parse(document: &str) -> (r: Result<(Ruleset, Vec<GroupErrors>), ParseError>)
    ensures
        match r {
            Ok(pair) => parsed(markup_of(document@)) == Ok::<Compiled, ParseErrorView>(
                Compiled { ruleset: pair.0@, log: log_views(pair.1@) },
            ),
            Err(error) => parsed(markup_of(document@)) == Err::<Compiled, ParseErrorView>(error@),
        },
{
    match read_markup(document) {
        Err(message) => Err(ParseError::Malformed(message)),
        Ok(events) => interpret(&events),
    }
}

} // verus!

