//! The option model and the Riivolution XML schema parser.
//!
//! A schema document declares a sequence of "option" elements, each with
//! "choice" children, inside an enclosing "options" element; a "section"
//! element names the grouping label.  The parser walks the document's
//! start/end events once, building one [`PresetOpt`] per "option" element
//! with the literal choice `"Disabled"` prepended.
use vstd::multiset::Multiset;
use vstd::prelude::*;

use xml::reader::{EventReader, XmlEvent};

verus! {

/// The views of a sequence of strings.
pub open spec fn strings_view(v: Seq<String>) -> Seq<Seq<char>> {
    v.map_values(|s: String| s@)
}

/// Mathematical model of a [`PresetOpt`].
pub ghost struct OptModel {
    pub name: Seq<char>,
    pub selected: Seq<char>,
    pub choices: Seq<Seq<char>>,
}

/// One user-facing option declared by the schema: a name, the currently
/// selected choice (empty until resolved), and the ordered choices.
#[derive(Debug)]
pub struct PresetOpt {
    pub name: String,
    pub selected: String,
    pub choices: Vec<String>,
}

impl View for PresetOpt {
    type V = OptModel;

    open spec fn view(&self) -> OptModel {
        OptModel {
            name: self.name@,
            selected: self.selected@,
            choices: strings_view(self.choices@),
        }
    }
}

impl PresetOpt {
    pub fn new() -> (r: Self)
        ensures
            r@.name == Seq::<char>::empty(),
            r@.selected == Seq::<char>::empty(),
            r@.choices == Seq::<Seq<char>>::empty(),
    {
        let r = PresetOpt { name: String::new(), selected: String::new(), choices: Vec::new() };
        proof {
            assert(r@.choices =~= Seq::<Seq<char>>::empty());
        }
        r
    }
}

/// Clone a vector of strings, keeping the contents.
pub fn clone_strings(v: &Vec<String>) -> (r: Vec<String>)
    ensures
        strings_view(r@) == strings_view(v@),
{
    let mut out: Vec<String> = Vec::new();
    let mut i: usize = 0;
    while i < v.len()
        invariant
            i <= v.len(),
            out@.len() == i,
            forall|k: int| 0 <= k < i ==> (#[trigger] out@[k])@ == v@[k]@,
        decreases v.len() - i,
    {
        out.push(v[i].clone());
        i = i + 1;
    }
    proof {
        assert(strings_view(out@) =~= strings_view(v@));
    }
    out
}

impl Clone for PresetOpt {
    fn clone(&self) -> (r: Self)
        ensures
            r@ == self@,
    {
        let r = PresetOpt {
            name: self.name.clone(),
            selected: self.selected.clone(),
            choices: clone_strings(&self.choices),
        };
        r
    }
}

/// Mathematical model of an [`XmlNode`].
pub ghost enum NodeModel {
    Start { name: Seq<char>, attrs: Seq<(Seq<char>, Seq<char>)> },
    End { name: Seq<char> },
    Other,
    Fault,
}

/// One event of an XML document stream, reduced to what the schema scan
/// reads: element boundaries with local names and attribute pairs, events
/// of no interest, and a stream fault.
pub enum XmlNode {
    Start { name: String, attrs: Vec<(String, String)> },
    End { name: String },
    Other,
    Fault,
}

impl View for XmlNode {
    type V = NodeModel;

    open spec fn view(&self) -> NodeModel {
        match self {
            XmlNode::Start { name, attrs } => NodeModel::Start {
                name: name@,
                attrs: attrs@.map_values(|p: (String, String)| (p.0@, p.1@)),
            },
            XmlNode::End { name } => NodeModel::End { name: name@ },
            XmlNode::Other => NodeModel::Other,
            XmlNode::Fault => NodeModel::Fault,
        }
    }
}

/// The views of a vector of stream events.
pub open spec fn nodes_view(evs: Seq<XmlNode>) -> Seq<NodeModel> {
    evs.map_values(|n: XmlNode| n@)
}

/// Equality of two string slices, by contents.
pub fn str_eq(a: &str, b: &str) -> (r: bool)
    ensures
        r == (a@ == b@),
{
    a.to_owned() == b.to_owned()
}

/// The value of the first attribute whose key equals `key`, if any.
pub open spec fn attr_value(attrs: Seq<(Seq<char>, Seq<char>)>, key: Seq<char>) -> Option<Seq<char>>
    decreases attrs.len(),
{
    if attrs.len() == 0 {
        None
    } else if attrs[0].0 == key {
        Some(attrs[0].1)
    } else {
        attr_value(attrs.drop_first(), key)
    }
}

/// The state of the schema scan: the options built so far and the
/// section name captured so far.
pub ghost struct ScanState {
    pub opts: Seq<OptModel>,
    pub section: Seq<char>,
}

pub open spec fn scan_init() -> ScanState {
    ScanState { opts: Seq::empty(), section: Seq::empty() }
}

/// What one stream event does to the scan state:
/// - an "option" start pushes a fresh option named by its "name" attribute,
///   with the single choice "Disabled";
/// - a "choice" start appends its "name" attribute to the choices of the
///   most recently opened option, if one exists;
/// - a "section" start captures its "name" attribute (last one wins);
/// - an "option" end resolves the most recently opened option to its
///   first choice;
/// - every other event leaves the state alone.
pub open spec fn scan_step(st: ScanState, ev: NodeModel) -> ScanState {
    match ev {
        NodeModel::Start { name, attrs } => {
            if name == "option"@ {
                let opt = OptModel {
                    name: match attr_value(attrs, "name"@) {
                        Some(v) => v,
                        None => Seq::empty(),
                    },
                    selected: Seq::empty(),
                    choices: seq!["Disabled"@],
                };
                ScanState { opts: st.opts.push(opt), ..st }
            } else if name == "choice"@ {
                if st.opts.len() > 0 {
                    match attr_value(attrs, "name"@) {
                        Some(v) => ScanState {
                            opts: st.opts.update(
                                st.opts.len() - 1,
                                OptModel {
                                    choices: st.opts.last().choices.push(v),
                                    ..st.opts.last()
                                },
                            ),
                            ..st
                        },
                        None => st,
                    }
                } else {
                    st
                }
            } else if name == "section"@ {
                match attr_value(attrs, "name"@) {
                    Some(v) => ScanState { section: v, ..st },
                    None => st,
                }
            } else {
                st
            }
        },
        NodeModel::End { name } => {
            if name == "option"@ && st.opts.len() > 0 && st.opts.last().choices.len() > 0 {
                ScanState {
                    opts: st.opts.update(
                        st.opts.len() - 1,
                        OptModel { selected: st.opts.last().choices[0], ..st.opts.last() },
                    ),
                    ..st
                }
            } else {
                st
            }
        },
        _ => st,
    }
}

/// The events on which the scan stops early: the end of the enclosing
/// "options" element, or a stream fault.
pub open spec fn scan_stops(ev: NodeModel) -> bool {
    ||| ev is Fault
    ||| (ev matches NodeModel::End { name } && name == "options"@)
}

/// The scan folded over an event sequence, stopping at the first
/// stopping event.
pub open spec fn scan_from(st: ScanState, evs: Seq<NodeModel>) -> ScanState
    decreases evs.len(),
{
    if evs.len() == 0 {
        st
    } else if scan_stops(evs[0]) {
        st
    } else {
        scan_from(scan_step(st, evs[0]), evs.drop_first())
    }
}

/// The full scan of an event sequence from the initial state.
pub open spec fn scan_events(evs: Seq<NodeModel>) -> ScanState {
    scan_from(scan_init(), evs)
}

/// The views of a sequence of options.
pub open spec fn opts_view(s: Seq<PresetOpt>) -> Seq<OptModel> {
    s.map_values(|o: PresetOpt| o@)
}

/// The views of a sequence of attribute pairs.
pub open spec fn attrs_view(s: Seq<(String, String)>) -> Seq<(Seq<char>, Seq<char>)> {
    s.map_values(|p: (String, String)| (p.0@, p.1@))
}

/// The scan state described by the parser's running accumulators.
pub open spec fn state_of(options: Seq<PresetOpt>, section: Seq<char>) -> ScanState {
    ScanState { opts: opts_view(options), section: section }
}

/// Failure of the schema parse.
#[derive(Clone, Copy, Debug, PartialEq, Eq, Structural)]
pub enum SchemaError {
    /// The document declared no option at all.
    EmptySchema,
}

/// The value of the first attribute in `attrs` whose key equals `key`.
pub fn find_attr<'a>(attrs: &'a Vec<(String, String)>, key: &str) -> (r: Option<&'a String>)
    ensures
        match r {
            Some(v) => attr_value(attrs_view(attrs@), key@) == Some(v@),
            None => attr_value(attrs_view(attrs@), key@) is None,
        },
{
    let ghost av = attrs_view(attrs@);
    proof {
        assert(av.skip(0) =~= av);
    }
    let mut i: usize = 0;
    while i < attrs.len()
        invariant
            i <= attrs.len(),
            av == attrs_view(attrs@),
            attr_value(av, key@) == attr_value(av.skip(i as int), key@),
        decreases attrs.len() - i,
    {
        proof {
            assert(av.skip(i as int)[0] == av[i as int]);
            assert(av.skip(i as int).drop_first() =~= av.skip(i as int + 1));
        }
        if str_eq(attrs[i].0.as_str(), key) {
            return Some(&attrs[i].1);
        }
        i = i + 1;
    }
    proof {
        assert(av.skip(attrs@.len() as int) =~= Seq::<(Seq<char>, Seq<char>)>::empty());
    }
    None
}

/// Parse a schema document, given as its stream of events, into the
/// ordered options it declares and its section name.  The result is
/// exactly what the scan of the events yields; a schema that declares
/// no option is rejected.
pub fn parse_schema(events: &Vec<XmlNode>) -> (r: Result<(Vec<PresetOpt>, String), SchemaError>)
    ensures
        ({
            let fin = scan_events(nodes_view(events@));
            match r {
                Ok(pair) => fin.opts.len() > 0 && opts_view(pair.0@) == fin.opts && pair.1@
                    == fin.section,
                Err(e) => fin.opts.len() == 0 && e == SchemaError::EmptySchema,
            }
        }),
{
    let ghost full = nodes_view(events@);
    let mut options: Vec<PresetOpt> = Vec::new();
    let mut section = String::new();
    let mut i: usize = 0;
    let mut done = false;
    proof {
        assert(opts_view(Seq::<PresetOpt>::empty()) =~= Seq::<OptModel>::empty());
        assert(full.skip(0) =~= full);
    }
    while i < events.len() && !done
        invariant
            i <= events.len(),
            full == nodes_view(events@),
            !done ==> scan_events(full) == scan_from(
                state_of(options@, section@),
                full.skip(i as int),
            ),
            done ==> scan_events(full) == state_of(options@, section@),
        decreases events.len() - i,
    {
        let ghost st_pre = state_of(options@, section@);
        proof {
            assert(full[i as int] == events@[i as int]@);
            assert(full.skip(i as int)[0] == full[i as int]);
            assert(full.skip(i as int).drop_first() =~= full.skip(i as int + 1));
        }
        match &events[i] {
            XmlNode::Start { name, attrs } => {
                if str_eq(name.as_str(), "option") {
                    let mut opt = PresetOpt::new();
                    match find_attr(attrs, "name") {
                        Some(v) => { opt.name = v.clone(); },
                        None => {},
                    }
                    opt.choices.push(disabled_string());
                    proof {
                        assert(opt@.choices =~= seq!["Disabled"@]);
                    }
                    options.push(opt);
                    proof {
                        assert(opts_view(options@) =~= st_pre.opts.push(opt@));
                        assert(state_of(options@, section@) == scan_step(
                            st_pre,
                            full[i as int],
                        ));
                    }
                } else if str_eq(name.as_str(), "choice") {
                    if options.len() > 0 {
                        match find_attr(attrs, "name") {
                            Some(v) => {
                                let v = v.clone();
                                let ghost old_opts = options@;
                                let mut last = options.pop().unwrap();
                                last.choices.push(v);
                                options.push(last);
                                proof {
                                    assert(last@.choices =~= opts_view(old_opts).last()
                                        .choices.push(v@));
                                    assert(last@ == OptModel {
                                        choices: st_pre.opts.last().choices.push(v@),
                                        ..st_pre.opts.last()
                                    });
                                    assert(opts_view(options@) =~= st_pre.opts.update(
                                        st_pre.opts.len() - 1,
                                        last@,
                                    ));
                                    assert(state_of(options@, section@) == scan_step(
                                        st_pre,
                                        full[i as int],
                                    ));
                                }
                            },
                            None => {},
                        }
                    }
                } else if str_eq(name.as_str(), "section") {
                    match find_attr(attrs, "name") {
                        Some(v) => { section = v.clone(); },
                        None => {},
                    }
                }
            },
            XmlNode::End { name } => {
                if str_eq(name.as_str(), "options") {
                    done = true;
                } else if str_eq(name.as_str(), "option") {
                    if options.len() > 0 {
                        let ghost old_opts = options@;
                        let mut last = options.pop().unwrap();
                        if last.choices.len() > 0 {
                            last.selected = last.choices[0].clone();
                        }
                        options.push(last);
                        proof {
                            if opts_view(old_opts).last().choices.len() > 0 {
                                assert(last@ == OptModel {
                                    selected: st_pre.opts.last().choices[0],
                                    ..st_pre.opts.last()
                                });
                                assert(opts_view(options@) =~= st_pre.opts.update(
                                    st_pre.opts.len() - 1,
                                    last@,
                                ));
                            } else {
                                assert(last@ == st_pre.opts.last());
                                assert(opts_view(options@) =~= st_pre.opts);
                                assert(st_pre.opts.update(st_pre.opts.len() - 1, last@)
                                    =~= st_pre.opts);
                            }
                            assert(state_of(options@, section@) == scan_step(
                                st_pre,
                                full[i as int],
                            ));
                        }
                    }
                }
            },
            XmlNode::Other => {},
            XmlNode::Fault => {
                done = true;
            },
        }
        i = i + 1;
    }
    if options.len() == 0 {
        Err(SchemaError::EmptySchema)
    } else {
        Ok((options, section))
    }
}

/// The string `"Disabled"`, owned.
pub fn disabled_string() -> (r: String)
    ensures
        r@ == "Disabled"@,
{
    "Disabled".to_owned()
}

/// The event stream that the XML pull parser produces for a document.
/// The stream is a function of the document text alone.
pub uninterp spec fn xml_events_of(text: Seq<char>) -> Seq<NodeModel>;

/// Relies on xml's `EventReader`: pulled in document order, it yields one
/// event per element boundary (with its local name and attributes), other
/// events for content, and stops right after an error or the document end.
#[verifier::external_body]
fn xml_events(text: &str) -> (r: Vec<XmlNode>)
    ensures
        nodes_view(r@) == xml_events_of(text@),
{
    EventReader::from_str(text).into_iter().map(|ev| match ev {
        Ok(XmlEvent::StartElement { name, attributes, .. }) => XmlNode::Start {
            name: name.local_name,
            attrs: attributes.into_iter().map(|a| (a.name.local_name, a.value)).collect(),
        },
        Ok(XmlEvent::EndElement { name }) => XmlNode::End { name: name.local_name },
        Ok(_) => XmlNode::Other,
        Err(_) => XmlNode::Fault,
    }).collect()
}

/// Parse a schema document, given as its text, into the ordered options
/// it declares and its section name.
pub fn parse_schema_text(text: &str) -> (r: Result<(Vec<PresetOpt>, String), SchemaError>)
    ensures
        ({
            let fin = scan_events(xml_events_of(text@));
            match r {
                Ok(pair) => fin.opts.len() > 0 && opts_view(pair.0@) == fin.opts && pair.1@
                    == fin.section,
                Err(e) => fin.opts.len() == 0 && e == SchemaError::EmptySchema,
            }
        }),
{
    let events = xml_events(text);
    parse_schema(&events)
}

/// Mathematical model of a [`Preset`].
pub ghost struct PresetModel {
    pub id: Seq<char>,
    pub name: Seq<char>,
    pub options: Seq<OptModel>,
    pub created_at: int,
    pub game_path: Seq<char>,
    pub xml_path: Seq<char>,
    pub section_name: Seq<char>,
}

/// A named, saved configuration of patch options plus a bound target
/// game file: the parsed options of one schema document, user metadata,
/// and the paths the descriptor is built from.
#[derive(Debug)]
pub struct Preset {
    pub id: String,
    pub name: String,
    pub options: Vec<PresetOpt>,
    pub created_at: i64,
    pub game_path: String,
    pub xml_path: String,
    pub section_name: String,
}

impl View for Preset {
    type V = PresetModel;

    open spec fn view(&self) -> PresetModel {
        PresetModel {
            id: self.id@,
            name: self.name@,
            options: opts_view(self.options@),
            created_at: self.created_at as int,
            game_path: self.game_path@,
            xml_path: self.xml_path@,
            section_name: self.section_name@,
        }
    }
}

/// Clone a vector of options, keeping the contents.
pub fn clone_opts(v: &Vec<PresetOpt>) -> (r: Vec<PresetOpt>)
    ensures
        opts_view(r@) == opts_view(v@),
{
    let mut out: Vec<PresetOpt> = Vec::new();
    let mut i: usize = 0;
    while i < v.len()
        invariant
            i <= v.len(),
            out@.len() == i,
            forall|k: int| 0 <= k < i ==> (#[trigger] out@[k])@ == v@[k]@,
        decreases v.len() - i,
    {
        out.push(v[i].clone());
        i = i + 1;
    }
    proof {
        assert(opts_view(out@) =~= opts_view(v@));
    }
    out
}

impl Clone for Preset {
    fn clone(&self) -> (r: Self)
        ensures
            r@ == self@,
    {
        Preset {
            id: self.id.clone(),
            name: self.name.clone(),
            options: clone_opts(&self.options),
            created_at: self.created_at,
            game_path: self.game_path.clone(),
            xml_path: self.xml_path.clone(),
            section_name: self.section_name.clone(),
        }
    }
}

/// The views of a sequence of presets.
pub open spec fn presets_view(s: Seq<Preset>) -> Seq<PresetModel> {
    s.map_values(|p: Preset| p@)
}

/// The position of the first preset with this id, if any.
pub open spec fn find_preset_idx(ps: Seq<PresetModel>, id: Seq<char>) -> Option<int>
    decreases ps.len(),
{
    if ps.len() == 0 {
        None
    } else if ps[0].id == id {
        Some(0)
    } else {
        match find_preset_idx(ps.drop_first(), id) {
            Some(i) => Some(i + 1),
            None => None,
        }
    }
}

/// What a found index says of the sequence: the entry at it carries the
/// id, no earlier entry does; a miss says no entry carries it.
pub proof fn lemma_find_preset_idx(ps: Seq<PresetModel>, id: Seq<char>)
    ensures
        match find_preset_idx(ps, id) {
            Some(i) => 0 <= i < ps.len() && ps[i].id == id && (forall|k: int|
                0 <= k < i ==> (#[trigger] ps[k]).id != id),
            None => forall|k: int| 0 <= k < ps.len() ==> (#[trigger] ps[k]).id != id,
        },
    decreases ps.len(),
{
    if ps.len() > 0 && ps[0].id != id {
        lemma_find_preset_idx(ps.drop_first(), id);
        assert forall|k: int| 0 <= k < ps.len() implies ps.drop_first().len() == ps.len() - 1
            && (0 < k < ps.len() ==> (#[trigger] ps[k]) == ps.drop_first()[k - 1]) by {}
    }
}

/// The ids of the presets are pairwise distinct.
pub open spec fn preset_ids_unique(ps: Seq<PresetModel>) -> bool {
    forall|i: int, j: int|
        0 <= i < j < ps.len() ==> (#[trigger] ps[i]).id != (#[trigger] ps[j]).id
}

/// The position of the first option with this name, if any.
pub open spec fn find_opt_idx(opts: Seq<OptModel>, name: Seq<char>) -> Option<int>
    decreases opts.len(),
{
    if opts.len() == 0 {
        None
    } else if opts[0].name == name {
        Some(0)
    } else {
        match find_opt_idx(opts.drop_first(), name) {
            Some(i) => Some(i + 1),
            None => None,
        }
    }
}

/// What a found index says of the sequence: the entry at it carries the
/// name, no earlier entry does; a miss says no entry carries it.
pub proof fn lemma_find_opt_idx(opts: Seq<OptModel>, name: Seq<char>)
    ensures
        match find_opt_idx(opts, name) {
            Some(i) => 0 <= i < opts.len() && opts[i].name == name && (forall|k: int|
                0 <= k < i ==> (#[trigger] opts[k]).name != name),
            None => forall|k: int| 0 <= k < opts.len() ==> (#[trigger] opts[k]).name != name,
        },
    decreases opts.len(),
{
    if opts.len() > 0 && opts[0].name != name {
        lemma_find_opt_idx(opts.drop_first(), name);
        assert forall|k: int| 0 <= k < opts.len() implies opts.drop_first().len() == opts.len()
            - 1 && (0 < k < opts.len() ==> (#[trigger] opts[k]) == opts.drop_first()[k
            - 1]) by {}
    }
}

/// A lookup miss: the named preset, or the named option on it, does not
/// exist.
#[derive(Clone, Copy, Debug, PartialEq, Eq, Structural)]
pub enum NotFoundError {
    PresetMissing,
    OptionMissing,
}

/// The position of the first preset in `presets` carrying `id`.
pub fn preset_index(presets: &Vec<Preset>, id: &str) -> (r: Option<usize>)
    ensures
        match r {
            Some(i) => find_preset_idx(presets_view(presets@), id@) == Some(i as int),
            None => find_preset_idx(presets_view(presets@), id@) is None,
        },
{
    let ghost pv = presets_view(presets@);
    proof {
        assert(pv.skip(0) =~= pv);
    }
    let mut i: usize = 0;
    while i < presets.len()
        invariant
            i <= presets.len(),
            pv == presets_view(presets@),
            find_preset_idx(pv, id@) == (match find_preset_idx(pv.skip(i as int), id@) {
                Some(j) => Some(j + i as int),
                None => None::<int>,
            }),
        decreases presets.len() - i,
    {
        proof {
            assert(pv.skip(i as int)[0] == pv[i as int]);
            assert(pv[i as int] == presets@[i as int]@);
            assert(pv.skip(i as int).drop_first() =~= pv.skip(i as int + 1));
        }
        if str_eq(presets[i].id.as_str(), id) {
            return Some(i);
        }
        i = i + 1;
    }
    proof {
        assert(pv.skip(presets@.len() as int) =~= Seq::<PresetModel>::empty());
    }
    None
}

/// What inserting a preset does to the collection: a preset already
/// carrying the id is replaced in place (last write wins); otherwise the
/// new preset is appended.
pub open spec fn insert_preset_spec(ps: Seq<PresetModel>, p: PresetModel) -> Seq<PresetModel> {
    match find_preset_idx(ps, p.id) {
        Some(i) => ps.update(i, p),
        None => ps.push(p),
    }
}

/// Insert a preset, replacing any preset that already carries its id.
pub fn insert_preset(presets: &mut Vec<Preset>, p: Preset)
    ensures
        presets_view(final(presets)@) == insert_preset_spec(presets_view(old(presets)@), p@),
        preset_ids_unique(presets_view(old(presets)@)) ==> preset_ids_unique(
            presets_view(final(presets)@),
        ),
{
    let ghost pv = presets_view(presets@);
    proof {
        lemma_find_preset_idx(pv, p@.id);
    }
    match preset_index(presets, p.id.as_str()) {
        Some(i) => {
            let _ = presets.remove(i);
            presets.insert(i, p);
            proof {
                assert(presets_view(presets@) =~= pv.update(
                    find_preset_idx(pv, p@.id).unwrap(),
                    p@,
                ));
            }
        },
        None => {
            presets.push(p);
            proof {
                assert(presets_view(presets@) =~= pv.push(p@));
            }
        },
    }
}

/// Set the selection of the named option on the named preset.
pub fn set_selection(presets: &mut Vec<Preset>, id: &str, name: &str, selection: &str) -> (r:
    Result<(), NotFoundError>)
    ensures
        ({
            let pv = presets_view(old(presets)@);
            match find_preset_idx(pv, id@) {
                None => r == Err::<(), NotFoundError>(NotFoundError::PresetMissing)
                    && final(presets)@ == old(presets)@,
                Some(i) => match find_opt_idx(pv[i].options, name@) {
                    None => r == Err::<(), NotFoundError>(NotFoundError::OptionMissing)
                        && final(presets)@ == old(presets)@,
                    Some(oi) => r == Ok::<(), NotFoundError>(()) && presets_view(
                        final(presets)@,
                    ) == pv.update(
                        i,
                        (PresetModel {
                            options: pv[i].options.update(
                                oi,
                                (OptModel { selected: selection@, ..pv[i].options[oi] }),
                            ),
                            ..pv[i]
                        }),
                    ),
                },
            }
        }),
        preset_ids_unique(presets_view(old(presets)@)) ==> preset_ids_unique(
            presets_view(final(presets)@),
        ),
{
    let ghost pv = presets_view(presets@);
    proof {
        lemma_find_preset_idx(pv, id@);
    }
    let i = match preset_index(presets, id) {
        Some(i) => i,
        None => {
            return Err(NotFoundError::PresetMissing);
        },
    };
    let mut p = presets.remove(i);
    let ghost pm = p@;
    proof {
        assert(pm == pv[i as int]);
    }
    proof {
        lemma_find_opt_idx(pm.options, name@);
    }
    let oi = match opt_index(&p.options, name) {
        Some(oi) => oi,
        None => {
            presets.insert(i, p);
            proof {
                assert(presets@ =~= old(presets)@);
            }
            return Err(NotFoundError::OptionMissing);
        },
    };
    let mut o = p.options.remove(oi);
    o.selected = selection.to_owned();
    p.options.insert(oi, o);
    proof {
        assert(opts_view(p.options@) =~= pm.options.update(
            oi as int,
            (OptModel { selected: selection@, ..pm.options[oi as int] }),
        ));
    }
    presets.insert(i, p);
    proof {
        assert(presets_view(presets@) =~= pv.update(
            i as int,
            (PresetModel {
                options: pv[i as int].options.update(
                    oi as int,
                    (OptModel { selected: selection@, ..pv[i as int].options[oi as int] }),
                ),
                ..pv[i as int]
            }),
        ));
    }
    Ok(())
}

/// The position of the first option in `opts` carrying `name`.
pub fn opt_index(opts: &Vec<PresetOpt>, name: &str) -> (r: Option<usize>)
    ensures
        match r {
            Some(i) => find_opt_idx(opts_view(opts@), name@) == Some(i as int),
            None => find_opt_idx(opts_view(opts@), name@) is None,
        },
{
    let ghost ov = opts_view(opts@);
    proof {
        assert(ov.skip(0) =~= ov);
    }
    let mut i: usize = 0;
    while i < opts.len()
        invariant
            i <= opts.len(),
            ov == opts_view(opts@),
            find_opt_idx(ov, name@) == (match find_opt_idx(ov.skip(i as int), name@) {
                Some(j) => Some(j + i as int),
                None => None::<int>,
            }),
        decreases opts.len() - i,
    {
        proof {
            assert(ov.skip(i as int)[0] == ov[i as int]);
            assert(ov[i as int] == opts@[i as int]@);
            assert(ov.skip(i as int).drop_first() =~= ov.skip(i as int + 1));
        }
        if str_eq(opts[i].name.as_str(), name) {
            return Some(i);
        }
        i = i + 1;
    }
    proof {
        assert(ov.skip(opts@.len() as int) =~= Seq::<OptModel>::empty());
    }
    None
}

/// Set the target game file path of the named preset; a miss leaves the
/// collection alone.
pub fn set_game_path(presets: &mut Vec<Preset>, id: &str, path: &str)
    ensures
        ({
            let pv = presets_view(old(presets)@);
            match find_preset_idx(pv, id@) {
                None => final(presets)@ == old(presets)@,
                Some(i) => presets_view(final(presets)@) == pv.update(
                    i,
                    (PresetModel { game_path: path@, ..pv[i] }),
                ),
            }
        }),
        preset_ids_unique(presets_view(old(presets)@)) ==> preset_ids_unique(
            presets_view(final(presets)@),
        ),
{
    let ghost pv = presets_view(presets@);
    proof {
        lemma_find_preset_idx(pv, id@);
    }
    match preset_index(presets, id) {
        Some(i) => {
            let mut p = presets.remove(i);
            p.game_path = path.to_owned();
            presets.insert(i, p);
            proof {
                assert(presets_view(presets@) =~= pv.update(
                    i as int,
                    (PresetModel { game_path: path@, ..pv[i as int] }),
                ));
            }
        },
        None => {},
    }
}

/// Relies on time's `UtcDateTime::now`: the number of seconds since the
/// Unix epoch, read from the system clock; nothing is assumed of the
/// value.
#[verifier::external_body]
fn now_timestamp() -> i64 {
    time::UtcDateTime::now().unix_timestamp()
}

/// Build a preset from a schema document: its options and section name
/// are exactly what the scan of the document's events yields; the game
/// path starts unset.
pub fn build_preset(
    id: &str,
    name: &str,
    xml_path: &str,
    xml_text: &str,
    created_at: i64,
) -> (r: Result<Preset, SchemaError>)
    ensures
        ({
            let fin = scan_events(xml_events_of(xml_text@));
            match r {
                Ok(p) => fin.opts.len() > 0 && p@ == (PresetModel {
                    id: id@,
                    name: name@,
                    options: fin.opts,
                    created_at: created_at as int,
                    game_path: Seq::empty(),
                    xml_path: xml_path@,
                    section_name: fin.section,
                }),
                Err(e) => fin.opts.len() == 0 && e == SchemaError::EmptySchema,
            }
        }),
{
    let (options, section_name) = match parse_schema_text(xml_text) {
        Ok(pair) => pair,
        Err(e) => {
            return Err(e);
        },
    };
    Ok(
        Preset {
            id: id.to_owned(),
            name: name.to_owned(),
            options,
            created_at,
            game_path: String::new(),
            xml_path: xml_path.to_owned(),
            section_name,
        },
    )
}

/// Create a preset from a schema document and insert it, replacing any
/// preset already carrying the id; its creation time is read from the
/// clock.  A document declaring no option is rejected and leaves the
/// collection alone.
pub fn create_preset(
    presets: &mut Vec<Preset>,
    id: &str,
    name: &str,
    xml_path: &str,
    xml_text: &str,
) -> (r: Result<(), SchemaError>)
    ensures
        ({
            let fin = scan_events(xml_events_of(xml_text@));
            match r {
                Ok(()) => fin.opts.len() > 0 && (exists|t: int|
                    presets_view(final(presets)@) == insert_preset_spec(
                        presets_view(old(presets)@),
                        (PresetModel {
                            id: id@,
                            name: name@,
                            options: fin.opts,
                            created_at: t,
                            game_path: Seq::empty(),
                            xml_path: xml_path@,
                            section_name: fin.section,
                        }),
                    )),
                Err(e) => fin.opts.len() == 0 && e == SchemaError::EmptySchema
                    && final(presets)@ == old(presets)@,
            }
        }),
        preset_ids_unique(presets_view(old(presets)@)) ==> preset_ids_unique(
            presets_view(final(presets)@),
        ),
{
    let created_at = now_timestamp();
    let p = match build_preset(id, name, xml_path, xml_text, created_at) {
        Ok(p) => p,
        Err(e) => {
            return Err(e);
        },
    };
    let ghost pm = p@;
    insert_preset(presets, p);
    proof {
        assert(presets_view(presets@) == insert_preset_spec(
            presets_view(old(presets)@),
            pm,
        ));
    }
    Ok(())
}

/// The name of the first game directory whose path equals the named
/// preset's game path, if the preset and such a directory exist.
pub fn get_path_name(
    presets: &Vec<Preset>,
    dirs: &Vec<crate::gamedirs::GameDir>,
    id: &str,
) -> (r: Option<String>)
    ensures
        ({
            let pv = presets_view(presets@);
            let dv = crate::gamedirs::dirs_view(dirs@);
            match find_preset_idx(pv, id@) {
                None => r is None,
                Some(i) => match crate::gamedirs::find_dir_by_path(dv, pv[i].game_path) {
                    None => r is None,
                    Some(d) => r matches Some(s) && s@ == dv[d].name,
                },
            }
        }),
{
    let ghost pv = presets_view(presets@);
    let ghost dv = crate::gamedirs::dirs_view(dirs@);
    proof {
        lemma_find_preset_idx(pv, id@);
    }
    match preset_index(presets, id) {
        Some(i) => {
            proof {
                crate::gamedirs::lemma_find_dir_by_path(dv, pv[i as int].game_path);
            }
            match crate::gamedirs::dir_index_by_path(dirs, presets[i].game_path.as_str()) {
                Some(d) => Some(dirs[d].name.clone()),
                None => None,
            }
        },
        None => None,
    }
}

/// Presets ordered by ascending creation time.
pub open spec fn sorted_by_created(s: Seq<PresetModel>) -> bool {
    forall|i: int, j: int|
        0 <= i < j < s.len() ==> (#[trigger] s[i]).created_at <= (#[trigger] s[j]).created_at
}

/// Clone a vector of presets, keeping the contents.
pub fn clone_presets(v: &Vec<Preset>) -> (r: Vec<Preset>)
    ensures
        presets_view(r@) == presets_view(v@),
{
    let mut out: Vec<Preset> = Vec::new();
    let mut i: usize = 0;
    while i < v.len()
        invariant
            i <= v.len(),
            out@.len() == i,
            forall|k: int| 0 <= k < i ==> (#[trigger] out@[k])@ == v@[k]@,
        decreases v.len() - i,
    {
        out.push(v[i].clone());
        i = i + 1;
    }
    proof {
        assert(presets_view(out@) =~= presets_view(v@));
    }
    out
}

/// All presets, sorted by ascending creation time: the result holds the
/// same presets (as a multiset) in sorted order.
pub fn get_presets(presets: &Vec<Preset>) -> (r: Vec<Preset>)
    ensures
        presets_view(r@).to_multiset() == presets_view(presets@).to_multiset(),
        sorted_by_created(presets_view(r@)),
{
    broadcast use vstd::seq_lib::group_to_multiset_ensures;

    let mut src = clone_presets(presets);
    let mut out: Vec<Preset> = Vec::new();
    proof {
        assert(presets_view(out@) =~= Seq::<PresetModel>::empty());
        assert(presets_view(out@).to_multiset().add(presets_view(src@).to_multiset())
            =~= presets_view(presets@).to_multiset());
    }
    while src.len() > 0
        invariant
            presets_view(out@).to_multiset().add(presets_view(src@).to_multiset())
                == presets_view(presets@).to_multiset(),
            sorted_by_created(presets_view(out@)),
            forall|a: int, b: int|
                0 <= a < out@.len() && 0 <= b < src@.len() ==> (#[trigger] presets_view(
                    out@,
                )[a]).created_at <= (#[trigger] presets_view(src@)[b]).created_at,
        decreases src.len(),
    {
        let ghost src0 = presets_view(src@);
        let ghost out0 = presets_view(out@);
        let mut m: usize = 0;
        let mut i: usize = 1;
        while i < src.len()
            invariant
                src0 == presets_view(src@),
                0 < src@.len(),
                m < i <= src@.len(),
                forall|k: int| 0 <= k < i ==> src0[m as int].created_at <= (#[trigger] src0[
                    k]).created_at,
            decreases src.len() - i,
        {
            proof {
                assert(src0[i as int] == src@[i as int]@);
                assert(src0[m as int] == src@[m as int]@);
            }
            if src[i].created_at < src[m].created_at {
                m = i;
            }
            i = i + 1;
        }
        let p = src.remove(m);
        proof {
            assert(p@ == src0[m as int]);
            assert(presets_view(src@) =~= src0.remove(m as int));
            vstd::seq_lib::to_multiset_contains(src0, p@);
            vstd::seq_lib::to_multiset_remove(src0, m as int);
            assert(src0.to_multiset().count(p@) > 0) by {
                assert(src0.contains(src0[m as int]));
            }
            assert(presets_view(src@).to_multiset() == src0.to_multiset().remove(p@));
        }
        out.push(p);
        proof {
            assert(presets_view(out@) =~= out0.push(p@));
            vstd::seq_lib::to_multiset_build(out0, p@);
            assert(presets_view(out@).to_multiset() == out0.to_multiset().insert(p@));
            assert(presets_view(out@).to_multiset().add(presets_view(src@).to_multiset())
                =~= out0.to_multiset().add(src0.to_multiset()));
            assert forall|a: int, b: int|
                0 <= a < out@.len() && 0 <= b < src@.len() implies (#[trigger] presets_view(
                out@,
            )[a]).created_at <= (#[trigger] presets_view(src@)[b]).created_at by {
                assert(presets_view(src@)[b] == (if b < m as int {
                    src0[b]
                } else {
                    src0[b + 1]
                }));
                if a < out0.len() {
                    assert(presets_view(out@)[a] == out0[a]);
                } else {
                    assert(presets_view(out@)[a] == p@);
                }
            }
            assert forall|a: int, b: int|
                0 <= a < b < out@.len() implies (#[trigger] presets_view(out@)[
            a]).created_at <= (#[trigger] presets_view(out@)[b]).created_at by {
                if b == out@.len() - 1 {
                    assert(presets_view(out@)[a] == out0[a]);
                    assert(presets_view(out@)[b] == p@);
                    assert(out0[a].created_at <= src0[m as int].created_at);
                }
            }
        }
    }
    proof {
        assert(presets_view(src@) =~= Seq::<PresetModel>::empty());
        assert(presets_view(src@).to_multiset() =~= Multiset::<PresetModel>::empty());
        assert(presets_view(out@).to_multiset().add(Multiset::<PresetModel>::empty())
            =~= presets_view(out@).to_multiset());
    }
    out
}

/// The decimal digit `d` as a one-character string.
pub open spec fn dec_digit_str(d: int) -> Seq<char> {
    if d == 0 {
        "0"@
    } else if d == 1 {
        "1"@
    } else if d == 2 {
        "2"@
    } else if d == 3 {
        "3"@
    } else if d == 4 {
        "4"@
    } else if d == 5 {
        "5"@
    } else if d == 6 {
        "6"@
    } else if d == 7 {
        "7"@
    } else if d == 8 {
        "8"@
    } else {
        "9"@
    }
}

/// The decimal rendering of a non-negative number.
pub open spec fn dec_nat(n: int) -> Seq<char>
    recommends
        n >= 0,
    decreases n,
{
    if n < 10 {
        dec_digit_str(n)
    } else {
        dec_nat(n / 10) + dec_digit_str(n % 10)
    }
}

/// The decimal rendering of a number, with a leading minus sign when it
/// is negative.
pub open spec fn dec_int(n: int) -> Seq<char> {
    if n < 0 {
        "-"@ + dec_nat(-n)
    } else {
        dec_nat(n)
    }
}

/// The decimal digit `d` as a one-character string slice.
fn digit_str(d: u64) -> (r: &'static str)
    requires
        d < 10,
    ensures
        r@ == dec_digit_str(d as int),
{
    if d == 0 {
        "0"
    } else if d == 1 {
        "1"
    } else if d == 2 {
        "2"
    } else if d == 3 {
        "3"
    } else if d == 4 {
        "4"
    } else if d == 5 {
        "5"
    } else if d == 6 {
        "6"
    } else if d == 7 {
        "7"
    } else if d == 8 {
        "8"
    } else {
        "9"
    }
}

/// Append the decimal rendering of `m` to `s`.
fn push_dec(s: &mut String, m: u64)
    ensures
        final(s)@ == old(s)@ + dec_nat(m as int),
    decreases m,
{
    if m < 10 {
        s.append(digit_str(m));
    } else {
        push_dec(s, m / 10);
        s.append(digit_str(m % 10));
        proof {
            assert(s@ =~= old(s)@ + dec_nat(m as int));
        }
    }
}

/// The decimal rendering of a signed number, as the launcher prints it.
pub fn i64_display(n: i64) -> (r: String)
    ensures
        r@ == dec_int(n as int),
{
    let mut s = String::new();
    let mag: u64 = if n >= 0 {
        n as u64
    } else {
        s.append("-");
        (-(n as i128)) as u64
    };
    push_dec(&mut s, mag);
    proof {
        if n < 0 {
            assert(s@ =~= "-"@ + dec_nat(-(n as int)));
        } else {
            assert(s@ =~= dec_nat(n as int));
        }
    }
    s
}

/// The parts joined with the separator between each two.
pub open spec fn join_seq(parts: Seq<Seq<char>>, sep: Seq<char>) -> Seq<char>
    decreases parts.len(),
{
    if parts.len() == 0 {
        Seq::empty()
    } else if parts.len() == 1 {
        parts[0]
    } else {
        parts[0] + sep + join_seq(parts.drop_first(), sep)
    }
}

/// Joining one more part appends the separator and the part.
pub proof fn lemma_join_push(parts: Seq<Seq<char>>, sep: Seq<char>, x: Seq<char>)
    ensures
        join_seq(parts.push(x), sep) == (if parts.len() == 0 {
            x
        } else {
            join_seq(parts, sep) + sep + x
        }),
    decreases parts.len(),
{
    if parts.len() == 0 {
        assert(parts.push(x).len() == 1);
        assert(parts.push(x)[0] == x);
    } else {
        assert(parts.push(x)[0] == parts[0]);
        assert(parts.push(x).drop_first() =~= parts.drop_first().push(x));
        lemma_join_push(parts.drop_first(), sep, x);
        if parts.len() == 1 {
            assert(join_seq(parts, sep) == parts[0]);
        } else {
            assert(parts[0] + sep + (join_seq(parts.drop_first(), sep) + sep + x) =~= (
            parts[0] + sep + join_seq(parts.drop_first(), sep)) + sep + x);
        }
    }
}

/// The rendering of one option: its name, its selection, and its
/// choices in brackets, separated by commas.
pub open spec fn opt_display(o: OptModel) -> Seq<char> {
    "Option:\n      Name: "@ + o.name + "\n      Selected: "@ + o.selected
        + "\n      Choices: ["@ + join_seq(o.choices, ", "@) + "]"@
}

impl PresetOpt {
    /// The option rendered as the launcher prints it.
    pub fn display_string(&self) -> (r: String)
        ensures
            r@ == opt_display(self@),
    {
        let mut s = String::new();
        s.append("Option:\n      Name: ");
        s.append(self.name.as_str());
        s.append("\n      Selected: ");
        s.append(self.selected.as_str());
        s.append("\n      Choices: [");
        let ghost cv = strings_view(self.choices@);
        let mut i: usize = 0;
        let mut joined = String::new();
        while i < self.choices.len()
            invariant
                i <= self.choices.len(),
                cv == strings_view(self.choices@),
                joined@ == join_seq(cv.take(i as int), ", "@),
            decreases self.choices.len() - i,
        {
            proof {
                assert(cv[i as int] == self.choices@[i as int]@);
                assert(cv.take(i as int).push(cv[i as int]) =~= cv.take(i as int + 1));
                lemma_join_push(cv.take(i as int), ", "@, cv[i as int]);
            }
            if i > 0 {
                joined.append(", ");
            }
            joined.append(self.choices[i].as_str());
            i = i + 1;
        }
        proof {
            assert(cv.take(cv.len() as int) =~= cv);
        }
        s.append(joined.as_str());
        s.append("]");
        proof {
            assert(s@ =~= opt_display(self@));
        }
        s
    }
}

/// The rendering of a preset: its id, name, creation time, and options,
/// each option indented on its own lines.
pub open spec fn preset_display(p: PresetModel) -> Seq<char> {
    "Preset:\n  ID: "@ + p.id + "\n  Name: "@ + p.name + "\n  Created At: "@ + dec_int(
        p.created_at,
    ) + "\n  Options:\n"@ + join_seq(
        p.options.map_values(|o: OptModel| "    "@ + opt_display(o)),
        "\n"@,
    )
}

impl Preset {
    /// The preset rendered as the launcher prints it.
    pub fn display_string(&self) -> (r: String)
        ensures
            r@ == preset_display(self@),
    {
        let mut s = String::new();
        s.append("Preset:\n  ID: ");
        s.append(self.id.as_str());
        s.append("\n  Name: ");
        s.append(self.name.as_str());
        s.append("\n  Created At: ");
        let created = i64_display(self.created_at);
        s.append(created.as_str());
        s.append("\n  Options:\n");
        let ghost parts = opts_view(self.options@).map_values(
            |o: OptModel| "    "@ + opt_display(o),
        );
        let mut joined = String::new();
        let mut i: usize = 0;
        while i < self.options.len()
            invariant
                i <= self.options.len(),
                parts == opts_view(self.options@).map_values(
                    |o: OptModel| "    "@ + opt_display(o),
                ),
                parts.len() == self.options@.len(),
                joined@ == join_seq(parts.take(i as int), "\n"@),
            decreases self.options.len() - i,
        {
            proof {
                assert(opts_view(self.options@)[i as int] == self.options@[i as int]@);
                assert(parts[i as int] == "    "@ + opt_display(self.options@[i as int]@));
                assert(parts.take(i as int).push(parts[i as int]) =~= parts.take(
                    i as int + 1,
                ));
                lemma_join_push(parts.take(i as int), "\n"@, parts[i as int]);
            }
            if i > 0 {
                joined.append("\n");
            }
            joined.append("    ");
            let line = self.options[i].display_string();
            joined.append(line.as_str());
            proof {
                assert(joined@ =~= join_seq(parts.take(i as int + 1), "\n"@));
            }
            i = i + 1;
        }
        proof {
            assert(parts.take(parts.len() as int) =~= parts);
        }
        s.append(joined.as_str());
        proof {
            assert(s@ =~= preset_display(self@));
        }
        s
    }
}

/// The stream events of one "choice" child per entry of `cs`.
pub open spec fn choice_events(cs: Seq<Seq<char>>) -> Seq<NodeModel> {
    cs.map_values(
        |c: Seq<char>| NodeModel::Start { name: "choice"@, attrs: seq![("name"@, c)] },
    )
}

/// The stream events of one "option" element named `name` with one
/// "choice" child per entry of `cs`.
pub open spec fn option_block(name: Seq<char>, cs: Seq<Seq<char>>) -> Seq<NodeModel> {
    seq![NodeModel::Start { name: "option"@, attrs: seq![("name"@, name)] }] + choice_events(cs)
        + seq![NodeModel::End { name: "option"@ }]
}

/// The stream events of a whole schema body: one option block per entry,
/// each entry giving the option's name and its choice names.
pub open spec fn blocks_events(blocks: Seq<(Seq<char>, Seq<Seq<char>>)>) -> Seq<NodeModel>
    decreases blocks.len(),
{
    if blocks.len() == 0 {
        Seq::empty()
    } else {
        option_block(blocks[0].0, blocks[0].1) + blocks_events(blocks.drop_first())
    }
}

/// The option that one option block parses to: "Disabled" prepended to
/// its declared choices, and selected.
pub open spec fn block_opt(name: Seq<char>, cs: Seq<Seq<char>>) -> OptModel {
    OptModel { name: name, selected: "Disabled"@, choices: seq!["Disabled"@] + cs }
}

/// The element names that the scan distinguishes are distinct words.
pub proof fn lemma_scan_words_distinct()
    ensures
        "choice"@ != "option"@,
        "section"@ != "option"@,
        "section"@ != "choice"@,
        "option"@ != "options"@,
        "choice"@ != "options"@,
{
    reveal_strlit("choice");
    reveal_strlit("option");
    reveal_strlit("options");
    reveal_strlit("section");
    assert(("choice"@)[0] == 'c' && ("option"@)[0] == 'o' && ("section"@)[0] == 's');
    assert(("option"@).len() == 6 && ("options"@).len() == 7 && ("choice"@).len() == 6);
}

/// The scan folded over concatenated streams is the composition of the
/// scans, as long as the first stream never stops the scan.
pub proof fn lemma_scan_from_append(st: ScanState, a: Seq<NodeModel>, b: Seq<NodeModel>)
    requires
        forall|i: int| 0 <= i < a.len() ==> !scan_stops(#[trigger] a[i]),
    ensures
        scan_from(st, a + b) == scan_from(scan_from(st, a), b),
    decreases a.len(),
{
    if a.len() == 0 {
        assert(a + b =~= b);
    } else {
        assert((a + b)[0] == a[0]);
        assert((a + b).drop_first() =~= a.drop_first() + b);
        assert forall|i: int| 0 <= i < a.drop_first().len() implies !scan_stops(
            #[trigger] a.drop_first()[i],
        ) by {
            assert(a.drop_first()[i] == a[i + 1]);
        }
        lemma_scan_from_append(scan_step(st, a[0]), a.drop_first(), b);
    }
}

/// Scanning a run of "choice" starts appends their names, in order, to
/// the choices of the most recently opened option.
pub proof fn lemma_scan_choice_run(st: ScanState, cs: Seq<Seq<char>>)
    requires
        st.opts.len() > 0,
    ensures
        scan_from(st, choice_events(cs)) == (ScanState {
            opts: st.opts.update(
                st.opts.len() - 1,
                OptModel { choices: st.opts.last().choices + cs, ..st.opts.last() },
            ),
            ..st
        }),
    decreases cs.len(),
{
    lemma_scan_words_distinct();
    let evs = choice_events(cs);
    if cs.len() == 0 {
        assert(evs =~= Seq::<NodeModel>::empty());
        assert(st.opts.last().choices + cs =~= st.opts.last().choices);
        assert(OptModel { choices: st.opts.last().choices + cs, ..st.opts.last() }
            == st.opts.last());
        assert(st.opts.update(st.opts.len() - 1, st.opts.last()) =~= st.opts);
    } else {
        let ev = evs[0];
        assert(ev == NodeModel::Start { name: "choice"@, attrs: seq![("name"@, cs[0])] });
        assert(!("choice"@ == "option"@));
        assert(attr_value(seq![("name"@, cs[0])], "name"@) == Some(cs[0]));
        let st1 = scan_step(st, ev);
        let o1 = OptModel { choices: st.opts.last().choices.push(cs[0]), ..st.opts.last() };
        assert(st1 == ScanState {
            opts: st.opts.update(st.opts.len() - 1, o1),
            ..st
        });
        assert(evs.drop_first() =~= choice_events(cs.drop_first()));
        lemma_scan_choice_run(st1, cs.drop_first());
        assert(st1.opts.last() == o1);
        let o2 = OptModel { choices: o1.choices + cs.drop_first(), ..o1 };
        assert(o2.choices =~= st.opts.last().choices + cs);
        assert(st1.opts.update(st1.opts.len() - 1, o2) =~= st.opts.update(
            st.opts.len() - 1,
            OptModel { choices: st.opts.last().choices + cs, ..st.opts.last() },
        ));
    }
}

/// Scanning one option block pushes exactly the option it declares.
pub proof fn lemma_scan_option_block(st: ScanState, name: Seq<char>, cs: Seq<Seq<char>>)
    ensures
        scan_from(st, option_block(name, cs)) == (ScanState {
            opts: st.opts.push(block_opt(name, cs)),
            ..st
        }),
{
    lemma_scan_words_distinct();
    let start = NodeModel::Start { name: "option"@, attrs: seq![("name"@, name)] };
    let stop = NodeModel::End { name: "option"@ };
    let block = option_block(name, cs);
    assert(attr_value(seq![("name"@, name)], "name"@) == Some(name));
    let o1 = OptModel { name: name, selected: Seq::empty(), choices: seq!["Disabled"@] };
    let st1 = ScanState { opts: st.opts.push(o1), ..st };
    assert(seq![start].len() == 1 && seq![start][0] == start);
    assert(!scan_stops(start));
    assert(seq![start].drop_first() =~= Seq::<NodeModel>::empty());
    assert(scan_step(st, start) == st1);
    assert(scan_from(st1, Seq::<NodeModel>::empty()) == st1);
    assert(scan_from(st, seq![start]) == st1);
    assert forall|i: int| 0 <= i < seq![start].len() implies !scan_stops(
        #[trigger] seq![start][i],
    ) by {}
    assert forall|i: int| 0 <= i < choice_events(cs).len() implies !scan_stops(
        #[trigger] choice_events(cs)[i],
    ) by {}
    assert(block =~= seq![start] + (choice_events(cs) + seq![stop]));
    lemma_scan_from_append(st, seq![start], choice_events(cs) + seq![stop]);
    lemma_scan_from_append(st1, choice_events(cs), seq![stop]);
    lemma_scan_choice_run(st1, cs);
    assert(st1.opts.last() == o1);
    let o2 = OptModel { choices: o1.choices + cs, ..o1 };
    let st2 = ScanState { opts: st1.opts.update(st1.opts.len() - 1, o2), ..st1 };
    assert(scan_from(st1, choice_events(cs)) == st2);
    assert(!("option"@ == "options"@));
    assert(!scan_stops(stop));
    assert(st2.opts.last() == o2);
    assert(o2.choices.len() > 0);
    assert(o2.choices[0] == "Disabled"@);
    let o3 = OptModel { selected: o2.choices[0], ..o2 };
    assert(seq![stop].len() == 1 && seq![stop][0] == stop);
    assert(seq![stop].drop_first() =~= Seq::<NodeModel>::empty());
    assert(scan_step(st2, stop) == ScanState {
        opts: st2.opts.update(st2.opts.len() - 1, o3),
        ..st2
    });
    assert(scan_from(scan_step(st2, stop), Seq::<NodeModel>::empty()) == scan_step(st2, stop));
    assert(scan_from(st2, seq![stop]) == ScanState {
        opts: st2.opts.update(st2.opts.len() - 1, o3),
        ..st2
    });
    assert(o3 == block_opt(name, cs));
    assert(st2.opts.update(st2.opts.len() - 1, o3) =~= st.opts.push(block_opt(name, cs)));
}

/// Scanning a schema body of option blocks appends, in order, exactly
/// the options they declare, and leaves the section name alone.
pub proof fn lemma_scan_blocks_from(st: ScanState, blocks: Seq<(Seq<char>, Seq<Seq<char>>)>)
    ensures
        scan_from(st, blocks_events(blocks)) == (ScanState {
            opts: st.opts + blocks.map_values(
                |b: (Seq<char>, Seq<Seq<char>>)| block_opt(b.0, b.1),
            ),
            ..st
        }),
    decreases blocks.len(),
{
    lemma_scan_words_distinct();
    let f = |b: (Seq<char>, Seq<Seq<char>>)| block_opt(b.0, b.1);
    if blocks.len() == 0 {
        assert(st.opts + blocks.map_values(f) =~= st.opts);
        assert(ScanState { opts: st.opts + blocks.map_values(f), ..st } == st);
    } else {
        let block = option_block(blocks[0].0, blocks[0].1);
        assert forall|i: int| 0 <= i < block.len() implies !scan_stops(#[trigger] block[i]) by {
            if i == 0 {
            } else if i < block.len() - 1 {
                assert(block[i] == choice_events(blocks[0].1)[i - 1]);
            } else {
                assert(block[i] == NodeModel::End { name: "option"@ });
                assert(!("option"@ == "options"@));
            }
        }
        lemma_scan_from_append(st, block, blocks_events(blocks.drop_first()));
        lemma_scan_option_block(st, blocks[0].0, blocks[0].1);
        let st1 = ScanState { opts: st.opts.push(f(blocks[0])), ..st };
        lemma_scan_blocks_from(st1, blocks.drop_first());
        assert(st1.opts + blocks.drop_first().map_values(f) =~= st.opts + blocks.map_values(
            f,
        ));
    }
}

/// Parsing a schema body of N "option" elements, the i-th carrying k_i
/// "choice" children, yields N options; the i-th is named as declared,
/// holds k_i + 1 choices with "Disabled" first, and is selected to
/// "Disabled".
pub proof fn lemma_scan_option_schema(blocks: Seq<(Seq<char>, Seq<Seq<char>>)>)
    ensures
        ({
            let st = scan_events(blocks_events(blocks));
            &&& st.opts.len() == blocks.len()
            &&& forall|i: int| 0 <= i < blocks.len() ==> {
                &&& (#[trigger] st.opts[i]).name == blocks[i].0
                &&& st.opts[i].choices == seq!["Disabled"@] + blocks[i].1
                &&& st.opts[i].choices.len() == blocks[i].1.len() + 1
                &&& st.opts[i].choices[0] == "Disabled"@
                &&& st.opts[i].selected == "Disabled"@
            }
            &&& st.section == Seq::<char>::empty()
        }),
{
    lemma_scan_blocks_from(scan_init(), blocks);
    let f = |b: (Seq<char>, Seq<Seq<char>>)| block_opt(b.0, b.1);
    let st = scan_events(blocks_events(blocks));
    assert(st.opts =~= blocks.map_values(f));
    assert forall|i: int| 0 <= i < blocks.len() implies {
        &&& (#[trigger] st.opts[i]).name == blocks[i].0
        &&& st.opts[i].choices == seq!["Disabled"@] + blocks[i].1
        &&& st.opts[i].choices.len() == blocks[i].1.len() + 1
        &&& st.opts[i].choices[0] == "Disabled"@
        &&& st.opts[i].selected == "Disabled"@
    } by {
        assert(st.opts[i] == f(blocks[i]));
    }
}

} // verus!
