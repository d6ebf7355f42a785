//! The delay feed parser: from the scraped markup of the delay page to the
//! ordered list of delay records, all-or-nothing per fetch.

use vstd::prelude::*;
use crate::chars::{spec_find_char, spec_find_sub, find_char_from, find_sub_from};
use crate::digits::{all_digits, spec_digits_val, parse_usize_range};
use crate::html::{
    HtmlNode, HtmlNodeView, nodes_view, spec_find_container_in_nodes, spec_entry_texts,
    find_container_in_nodes, collect_entry_texts,
};

verus! {

/// One failure kind per way a fetched feed page can be rejected; each carries
/// the text it choked on.
#[derive(Debug, Clone, PartialEq, Eq)]
pub enum UzParseError {
    /// The fetch itself failed; raised by the caller doing the fetch.
    Reqwest(String),
    /// The page is not parseable markup.
    HtmlParsing,
    /// An entry has no space separating the train numbers from the rest.
    GetTrainNumbers(String),
    /// An entry has no `" (+"` separating the direction from the delay.
    GetTrainName(String),
    /// Never produced; reserved for a failure on one train number.
    ParseTrainNumber(String),
    /// The delay part has no `':'`.
    SplitDelay(String),
    /// The hour or minute token of the delay is not a number.
    ParseDelayHour(String),
    /// Never produced: minute failures are reported as `ParseDelayHour` too,
    /// as the feed's users have always seen them.
    ParseDelayMinute(String),
    /// The page has no root node at all.
    DomHtmlNotFound(String),
    /// No element of the page carries the delay container class.
    DelayedTrainsContainer(String),
}

/// Mathematical image of a [`UzParseError`].
pub enum UzErrorView {
    Reqwest(Seq<char>),
    HtmlParsing,
    GetTrainNumbers(Seq<char>),
    GetTrainName(Seq<char>),
    ParseTrainNumber(Seq<char>),
    SplitDelay(Seq<char>),
    ParseDelayHour(Seq<char>),
    ParseDelayMinute(Seq<char>),
    DomHtmlNotFound(Seq<char>),
    DelayedTrainsContainer(Seq<char>),
}

impl View for UzParseError {
    type V = UzErrorView;

    open spec fn view(&self) -> UzErrorView {
        match self {
            UzParseError::Reqwest(s) => UzErrorView::Reqwest(s@),
            UzParseError::HtmlParsing => UzErrorView::HtmlParsing,
            UzParseError::GetTrainNumbers(s) => UzErrorView::GetTrainNumbers(s@),
            UzParseError::GetTrainName(s) => UzErrorView::GetTrainName(s@),
            UzParseError::ParseTrainNumber(s) => UzErrorView::ParseTrainNumber(s@),
            UzParseError::SplitDelay(s) => UzErrorView::SplitDelay(s@),
            UzParseError::ParseDelayHour(s) => UzErrorView::ParseDelayHour(s@),
            UzParseError::ParseDelayMinute(s) => UzErrorView::ParseDelayMinute(s@),
            UzParseError::DomHtmlNotFound(s) => UzErrorView::DomHtmlNotFound(s@),
            UzParseError::DelayedTrainsContainer(s) => UzErrorView::DelayedTrainsContainer(s@),
        }
    }
}

/// The paired-route aliases of one delayed train, in feed order.
#[derive(Debug, PartialEq, Eq, Clone)]
pub struct TrainNumbers(pub Vec<String>);

/// Hours and minutes of reported delay.
#[derive(Debug, PartialEq, Eq, Structural, Clone, Copy)]
pub struct TrainDelayTime {
    pub hr: usize,
    pub min: usize,
}

/// The free-text route description of a delayed train.
#[derive(Debug, PartialEq, Eq, Clone)]
pub struct TrainDirection(pub String);

/// One parsed delay record.
#[derive(Debug, PartialEq, Eq, Clone)]
pub struct DelayedTrain {
    pub direction: TrainDirection,
    pub numbers: TrainNumbers,
    pub delay: TrainDelayTime,
}

/// The parsed feed: delay records in page order.
#[derive(Debug, PartialEq, Eq)]
pub struct DelayedTrains(pub Vec<DelayedTrain>);

/// Mathematical image of a [`DelayedTrain`].
pub struct DelayView {
    pub numbers: Seq<Seq<char>>,
    pub direction: Seq<char>,
    pub delay: TrainDelayTime,
}

impl View for TrainNumbers {
    type V = Seq<Seq<char>>;

    open spec fn view(&self) -> Seq<Seq<char>> {
        self.0.deep_view()
    }
}

impl View for TrainDirection {
    type V = Seq<char>;

    open spec fn view(&self) -> Seq<char> {
        self.0@
    }
}

impl TrainDirection {
    /// The route text itself.
    pub fn as_str(&self) -> (r: &str)
        ensures
            r@ == self@,
    {
        self.0.as_str()
    }
}

impl View for DelayedTrain {
    type V = DelayView;

    open spec fn view(&self) -> DelayView {
        DelayView { numbers: self.numbers@, direction: self.direction@, delay: self.delay }
    }
}

impl DeepView for DelayedTrain {
    type V = DelayView;

    open spec fn deep_view(&self) -> DelayView {
        self.view()
    }
}

impl View for DelayedTrains {
    type V = Seq<DelayView>;

    open spec fn view(&self) -> Seq<DelayView> {
        self.0.deep_view()
    }
}

/// Splitting on `'/'`: every separator starts a new piece, so the result
/// always holds one piece more than there are separators.
pub open spec fn spec_split_slash(s: Seq<char>) -> Seq<Seq<char>>
    decreases s.len(),
{
    if s.len() == 0 {
        seq![Seq::empty()]
    } else if s[0] == '/' {
        seq![Seq::empty()] + spec_split_slash(s.drop_first())
    } else {
        let rest = spec_split_slash(s.drop_first());
        seq![seq![s[0]] + rest[0]] + rest.drop_first()
    }
}

proof fn lemma_split_slash_never_empty(s: Seq<char>)
    ensures
        spec_split_slash(s).len() >= 1,
    decreases s.len(),
{
    if s.len() > 0 {
        lemma_split_slash_never_empty(s.drop_first());
    }
}

/// The head piece of a split runs to the first separator (or the end).
proof fn lemma_split_slash_head(t: Seq<char>, k: int)
    requires
        0 <= k <= t.len(),
        forall|j: int| 0 <= j < k ==> t[j] != '/',
        k == t.len() || t[k] == '/',
    ensures
        k == t.len() ==> spec_split_slash(t) == seq![t],
        k < t.len() ==> spec_split_slash(t) == seq![t.subrange(0, k)] + spec_split_slash(
            t.subrange(k + 1, t.len() as int),
        ),
    decreases k,
{
    lemma_split_slash_never_empty(t.drop_first());
    if t.len() == 0 {
        assert(spec_split_slash(t) =~~= seq![t]);
    } else if t[0] == '/' {
        assert(k == 0);
        assert(t.drop_first() =~= t.subrange(1, t.len() as int));
        assert(t.subrange(0, 0) =~= Seq::<char>::empty());
        assert(spec_split_slash(t) =~~= seq![t.subrange(0, 0)] + spec_split_slash(
            t.subrange(1, t.len() as int),
        ));
    } else {
        assert(k >= 1);
        let t1 = t.drop_first();
        lemma_split_slash_head(t1, k - 1);
        let rest = spec_split_slash(t1);
        if k == t.len() {
            assert(rest == seq![t1]);
            assert(seq![t[0]] + rest[0] =~= t);
            assert(rest.drop_first() =~= Seq::<Seq<char>>::empty());
            assert(spec_split_slash(t) =~~= seq![t]);
        } else {
            assert(t1[k - 1] == '/');
            assert(rest == seq![t1.subrange(0, k - 1)] + spec_split_slash(
                t1.subrange(k, t1.len() as int),
            ));
            assert(rest[0] == t1.subrange(0, k - 1));
            assert(seq![t[0]] + t1.subrange(0, k - 1) =~= t.subrange(0, k));
            assert(t1.subrange(k, t1.len() as int) =~= t.subrange(k + 1, t.len() as int));
            assert(rest.drop_first() =~= spec_split_slash(t.subrange(k + 1, t.len() as int)));
            assert(spec_split_slash(t) =~~= seq![t.subrange(0, k)] + spec_split_slash(
                t.subrange(k + 1, t.len() as int),
            ));
        }
    }
}

/// What the numbers field of an entry denotes: drop the leading glyph, then
/// split the aliases on `'/'`.
pub open spec fn spec_train_numbers(s: Seq<char>) -> Seq<Seq<char>> {
    if s.len() >= 1 {
        spec_split_slash(s.drop_first())
    } else {
        spec_split_slash(s)
    }
}

/// Parse the numbers token of an entry: skip the leading glyph and split the
/// remainder on `'/'`.  Never fails.
pub fn parse_train_numbers(s: &str) -> (r: TrainNumbers)
    ensures
        r@ == spec_train_numbers(s@),
{
    let n = s.unicode_len();
    let base = if n >= 1 {
        s.substring_char(1, n)
    } else {
        s
    };
    proof {
        if n >= 1 {
            assert(base@ =~= s@.drop_first());
        }
    }
    let bn = base.unicode_len();
    let mut out: Vec<String> = Vec::new();
    let mut p: usize = 0;
    proof {
        assert(base@.subrange(0, bn as int) =~= base@);
        assert(Seq::<Seq<char>>::empty() + spec_split_slash(base@) =~= spec_split_slash(base@));
    }
    loop
        invariant
            0 <= p <= bn,
            bn == base@.len(),
            spec_split_slash(base@) == spec_train_numbers(s@),
            spec_split_slash(base@) == out.deep_view() + spec_split_slash(
                base@.subrange(p as int, bn as int),
            ),
        decreases bn - p,
    {
        let ghost t1 = base@.subrange(p as int, bn as int);
        match find_char_from(base, '/', p) {
            Some(q) => {
                proof {
                    crate::chars::lemma_find_char(base@, '/', p as int);
                    assert(forall|j: int| 0 <= j < q - p ==> t1[j] != '/');
                    assert(t1[q - p] == '/');
                    lemma_split_slash_head(t1, q - p);
                    assert(t1.subrange(0, q - p) =~= base@.subrange(p as int, q as int));
                    assert(t1.subrange(q - p + 1, t1.len() as int) =~= base@.subrange(
                        q + 1,
                        bn as int,
                    ));
                }
                let piece = base.substring_char(p, q);
                let ghost out0 = out.deep_view();
                out.push(piece.to_owned());
                proof {
                    assert(out.deep_view() =~= out0.push(base@.subrange(p as int, q as int)));
                    assert(out.deep_view() + spec_split_slash(base@.subrange(q + 1, bn as int))
                        =~= out0 + (seq![base@.subrange(p as int, q as int)] + spec_split_slash(
                        base@.subrange(q + 1, bn as int),
                    )));
                }
                p = q + 1;
            },
            None => {
                proof {
                    crate::chars::lemma_find_char(base@, '/', p as int);
                    assert(forall|j: int| 0 <= j < t1.len() ==> t1[j] != '/');
                    lemma_split_slash_head(t1, t1.len() as int);
                }
                let piece = base.substring_char(p, bn);
                let ghost out0 = out.deep_view();
                out.push(piece.to_owned());
                proof {
                    assert(out.deep_view() =~= out0.push(t1));
                    assert(out.deep_view() =~= out0 + seq![t1]);
                    assert(out.deep_view() =~= spec_split_slash(base@));
                }
                return TrainNumbers(out);
            },
        }
    }
}

/// What a delay token (`H:MM`) denotes, or the failure it is rejected with.
pub open spec fn spec_parse_delay(d: Seq<char>) -> Result<TrainDelayTime, UzErrorView> {
    match spec_find_char(d, ':', 0) {
        None => Err(UzErrorView::SplitDelay(d)),
        Some(ci) => {
            let hs = d.subrange(0, ci);
            let ms = d.subrange(ci + 1, d.len() as int);
            if !(hs.len() > 0 && all_digits(hs) && spec_digits_val(hs) <= usize::MAX) {
                Err(UzErrorView::ParseDelayHour(hs))
            } else if !(ms.len() > 0 && all_digits(ms) && spec_digits_val(ms) <= usize::MAX) {
                Err(UzErrorView::ParseDelayHour(ms))
            } else {
                Ok(
                    (TrainDelayTime {
                        hr: spec_digits_val(hs) as usize,
                        min: spec_digits_val(ms) as usize,
                    }),
                )
            }
        },
    }
}

/// Parse the delay token of an entry, hours and minutes split by `':'`.
/// A minute failure is reported as `ParseDelayHour`, as the feed's users
/// have always seen it.
pub fn parse_delay_time(d: &str) -> (r: Result<TrainDelayTime, UzParseError>)
    ensures
        match r {
            Ok(t) => spec_parse_delay(d@) == Ok::<TrainDelayTime, UzErrorView>(t),
            Err(e) => spec_parse_delay(d@) == Err::<TrainDelayTime, UzErrorView>(e@),
        },
{
    let n = d.unicode_len();
    let ci = match find_char_from(d, ':', 0) {
        Some(c) => c,
        None => {
            return Err(UzParseError::SplitDelay(d.to_owned()));
        },
    };
    let hr = match parse_usize_range(d, 0, ci) {
        Some(v) => v,
        None => {
            return Err(UzParseError::ParseDelayHour(d.substring_char(0, ci).to_owned()));
        },
    };
    let min = match parse_usize_range(d, ci + 1, n) {
        Some(v) => v,
        None => {
            return Err(UzParseError::ParseDelayHour(d.substring_char(ci + 1, n).to_owned()));
        },
    };
    Ok(TrainDelayTime { hr, min })
}

/// The whole meaning of one feed entry: the record it denotes, or exactly
/// which failure it is rejected with.
pub open spec fn spec_parse_entry(e: Seq<char>) -> Result<DelayView, UzErrorView> {
    match spec_find_char(e, ' ', 0) {
        None => Err(UzErrorView::GetTrainNumbers(e)),
        Some(sp) => {
            let numbers = e.subrange(0, sp);
            let rest = e.subrange(sp + 1, e.len() as int);
            match spec_find_sub(rest, " (+"@, 0) {
                None => Err(UzErrorView::GetTrainName(e)),
                Some(di) => {
                    let direction = rest.subrange(0, di);
                    let tail = rest.subrange(di + 3, rest.len() as int);
                    let dstr = if tail.len() >= 1 {
                        tail.subrange(0, tail.len() - 1)
                    } else {
                        tail
                    };
                    match spec_parse_delay(dstr) {
                        Err(er) => Err(er),
                        Ok(del) => Ok(
                            (DelayView {
                                numbers: spec_train_numbers(numbers),
                                direction,
                                delay: del,
                            }),
                        ),
                    }
                },
            }
        },
    }
}

/// Parse one delay entry, `№<numbers> <direction> (+<H>:<MM>)`.
pub fn parse_entry(text: &str) -> (r: Result<DelayedTrain, UzParseError>)
    ensures
        match r {
            Ok(t) => spec_parse_entry(text@) == Ok::<DelayView, UzErrorView>(t@),
            Err(e) => spec_parse_entry(text@) == Err::<DelayView, UzErrorView>(e@),
        },
{
    let n = text.unicode_len();
    let sp = match find_char_from(text, ' ', 0) {
        Some(i) => i,
        None => {
            return Err(UzParseError::GetTrainNumbers(text.to_owned()));
        },
    };
    let numbers_str = text.substring_char(0, sp);
    let rest = text.substring_char(sp + 1, n);
    proof {
        reveal_strlit(" (+");
    }
    let di = match find_sub_from(rest, " (+", 0) {
        Some(i) => i,
        None => {
            return Err(UzParseError::GetTrainName(text.to_owned()));
        },
    };
    let rn = rest.unicode_len();
    let direction = rest.substring_char(0, di);
    let tail = rest.substring_char(di + 3, rn);
    let tn = tail.unicode_len();
    let dstr = if tn >= 1 {
        tail.substring_char(0, tn - 1)
    } else {
        tail
    };
    let delay = match parse_delay_time(dstr) {
        Ok(d) => d,
        Err(e) => {
            return Err(e);
        },
    };
    let numbers = parse_train_numbers(numbers_str);
    Ok(
        DelayedTrain {
            direction: TrainDirection(direction.to_owned()),
            numbers,
            delay,
        },
    )
}

/// All-or-nothing parse of the entry texts: the first malformed entry aborts
/// the whole batch.
pub open spec fn spec_parse_entries(texts: Seq<Seq<char>>) -> Result<Seq<DelayView>, UzErrorView>
    decreases texts.len(),
{
    if texts.len() == 0 {
        Ok(Seq::empty())
    } else {
        match spec_parse_entry(texts[0]) {
            Err(e) => Err(e),
            Ok(d) => match spec_parse_entries(texts.drop_first()) {
                Err(e) => Err(e),
                Ok(rest) => Ok(seq![d] + rest),
            },
        }
    }
}

fn parse_entries(texts: &Vec<String>) -> (r: Result<Vec<DelayedTrain>, UzParseError>)
    ensures
        match r {
            Ok(v) => spec_parse_entries(texts.deep_view()) == Ok::<Seq<DelayView>, UzErrorView>(
                v.deep_view(),
            ),
            Err(e) => spec_parse_entries(texts.deep_view()) == Err::<Seq<DelayView>, UzErrorView>(
                e@,
            ),
        },
{
    let ghost tv = texts.deep_view();
    proof {
        assert(tv.skip(0) =~= tv);
    }
    let mut out: Vec<DelayedTrain> = Vec::new();
    let mut i: usize = 0;
    while i < texts.len()
        invariant
            0 <= i <= texts@.len(),
            tv == texts.deep_view(),
            tv.len() == texts@.len(),
            spec_parse_entries(tv) == (match spec_parse_entries(tv.skip(i as int)) {
                Err(e) => Err::<Seq<DelayView>, UzErrorView>(e),
                Ok(rest) => Ok::<Seq<DelayView>, UzErrorView>(out.deep_view() + rest),
            }),
        decreases texts@.len() - i,
    {
        proof {
            assert(tv.skip(i as int)[0] == tv[i as int]);
            assert(tv.skip(i as int).drop_first() =~= tv.skip(i + 1));
        }
        let ghost out0 = out.deep_view();
        match parse_entry(texts[i].as_str()) {
            Ok(d) => {
                out.push(d);
                proof {
                    assert(out.deep_view() =~= out0.push(d@));
                    match spec_parse_entries(tv.skip(i + 1)) {
                        Ok(rest) => {
                            assert(out.deep_view() + rest =~= out0 + (seq![d@] + rest));
                        },
                        Err(_) => {},
                    }
                }
            },
            Err(e) => {
                return Err(e);
            },
        }
        i = i + 1;
    }
    proof {
        assert(tv.skip(i as int) =~= Seq::<Seq<char>>::empty());
        assert(out.deep_view() + Seq::<DelayView>::empty() =~= out.deep_view());
    }
    Ok(out)
}

/// The whole meaning of a fetched feed page, given the trees its markup
/// denotes: the records it lists, or exactly which failure rejects it.
pub open spec fn spec_parse_feed(input: Seq<char>, roots: Seq<HtmlNodeView>) -> Result<
    Seq<DelayView>,
    UzErrorView,
> {
    if roots.len() == 0 {
        Err(UzErrorView::DomHtmlNotFound(input))
    } else {
        let cont = (match roots[0] {
            HtmlNodeView::Element { classes, children } => spec_find_container_in_nodes(children),
            _ => None,
        });
        match cont {
            None => Err(UzErrorView::DelayedTrainsContainer(input)),
            Some(c) => match c {
                HtmlNodeView::Element { classes, children } => spec_parse_entries(
                    spec_entry_texts(children),
                ),
                _ => Err(UzErrorView::DelayedTrainsContainer(input)),
            },
        }
    }
}

/// Parse a feed page from the node trees of its markup.
pub fn parse_feed_from_nodes(roots: &Vec<HtmlNode>, input: &str) -> (r: Result<
    DelayedTrains,
    UzParseError,
>)
    ensures
        match r {
            Ok(t) => spec_parse_feed(input@, nodes_view(roots@)) == Ok::<Seq<DelayView>, UzErrorView>(
                t@,
            ),
            Err(e) => spec_parse_feed(input@, nodes_view(roots@)) == Err::<
                Seq<DelayView>,
                UzErrorView,
            >(e@),
        },
{
    proof {
        crate::html::lemma_nodes_view(roots@);
    }
    if roots.len() == 0 {
        return Err(UzParseError::DomHtmlNotFound(input.to_owned()));
    }
    let container = (match &roots[0] {
        HtmlNode::Element(e) => find_container_in_nodes(&e.children),
        _ => None,
    });
    match container {
        None => Err(UzParseError::DelayedTrainsContainer(input.to_owned())),
        Some(c) => {
            let texts = collect_entry_texts(&c.children);
            match parse_entries(&texts) {
                Ok(v) => Ok(DelayedTrains(v)),
                Err(e) => Err(e),
            }
        },
    }
}

#[verifier::external_type_specification]
#[verifier::external_body]
pub struct ExHtmlParserNode(html_parser::Node);

/// Relies on `html_parser::Node`: rebuilds one parsed node as the crate's
/// own tree, one variant arm each, keeping class lists, children and text.
#[verifier::external_body]
fn convert_html_node(n: &html_parser::Node) -> HtmlNode {
    match n {
        html_parser::Node::Text(t) => HtmlNode::Text(t.clone()),
        html_parser::Node::Comment(t) => HtmlNode::Comment(t.clone()),
        html_parser::Node::Element(e) => HtmlNode::Element(
            crate::html::HtmlElement {
                classes: e.classes.clone(),
                children: e.children.iter().map(convert_html_node).collect(),
            },
        ),
    }
}

/// The node trees that the outside markup parser reads out of a page, or
/// nothing where it rejects the page; a function of the page text alone.
pub uninterp spec fn html_roots_of(s: Seq<char>) -> Option<Seq<HtmlNodeView>>;

/// Relies on `html_parser::Dom::parse`: parses markup into a tree of
/// elements, text and comments, deterministically in the input.
#[verifier::external_body]
fn parse_html_roots(input: &str) -> (r: Option<Vec<HtmlNode>>)
    ensures
        match r {
            Some(v) => html_roots_of(input@) == Some(nodes_view(v@)),
            None => html_roots_of(input@) is None,
        },
{
    match html_parser::Dom::parse(input) {
        Ok(dom) => Some(dom.children.iter().map(convert_html_node).collect()),
        Err(_) => None,
    }
}

/// Parse a fetched feed page: markup to trees through the outside parser,
/// then the container search and the entry grammar, all-or-nothing.
pub fn parse_delayed_trains_page(input: &str) -> (r: Result<DelayedTrains, UzParseError>)
    ensures
        match html_roots_of(input@) {
            None => r matches Err(e) && e@ == UzErrorView::HtmlParsing,
            Some(rv) => match spec_parse_feed(input@, rv) {
                Ok(d) => r matches Ok(t) && t@ == d,
                Err(ev) => r matches Err(e) && e@ == ev,
            },
        },
{
    let roots = match parse_html_roots(input) {
        Some(v) => v,
        None => {
            return Err(UzParseError::HtmlParsing);
        },
    };
    parse_feed_from_nodes(&roots, input)
}

impl core::str::FromStr for DelayedTrains {
    type Err = UzParseError;

    fn from_str(input: &str) -> Result<Self, Self::Err> {
        parse_delayed_trains_page(input)
    }
}

impl core::str::FromStr for TrainNumbers {
    type Err = UzParseError;

    fn from_str(numbers: &str) -> Result<Self, Self::Err> {
        Ok(parse_train_numbers(numbers))
    }
}

impl core::str::FromStr for TrainDelayTime {
    type Err = UzParseError;

    fn from_str(delay: &str) -> Result<Self, Self::Err> {
        parse_delay_time(delay)
    }
}

} // verus!
