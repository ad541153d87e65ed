//! Logon events: what one event of the log says, and the events of a whole
//! log by their kind.

use vstd::prelude::*;
use crate::tree::first_named;
use crate::tree::first_tagged;
use crate::tree::lemma_children_models;
use crate::tree::rendering;
use crate::tree::Element;
use crate::tree::ElementModel;

verus! {

/// One logon event.
#[allow(non_snake_case)]
#[derive(Debug, Clone, PartialEq, Eq)]
pub struct EventLogon {
    /// The number of the event's kind; 0 where the log gives no number.
    pub EventID: usize,
    /// When the event was written, in ISO 8601 format.
    pub TimeCreated: String,
    pub SubjectUserSid: String,
    pub SubjectUserName: String,
    pub SubjectDomainName: String,
    pub SubjectLogonId: String,
    pub TargetUserSid: String,
    pub TargetUserName: String,
    pub TargetDomainName: String,
    pub TargetLogonId: String,
}

/// What an [`EventLogon`] holds.
pub struct LogonModel {
    pub event_id: nat,
    pub time_created: Seq<char>,
    pub subject_user_sid: Seq<char>,
    pub subject_user_name: Seq<char>,
    pub subject_domain_name: Seq<char>,
    pub subject_logon_id: Seq<char>,
    pub target_user_sid: Seq<char>,
    pub target_user_name: Seq<char>,
    pub target_domain_name: Seq<char>,
    pub target_logon_id: Seq<char>,
}

impl View for EventLogon {
    type V = LogonModel;

    open spec fn view(&self) -> LogonModel {
        LogonModel {
            event_id: self.EventID as nat,
            time_created: self.TimeCreated@,
            subject_user_sid: self.SubjectUserSid@,
            subject_user_name: self.SubjectUserName@,
            subject_domain_name: self.SubjectDomainName@,
            subject_logon_id: self.SubjectLogonId@,
            target_user_sid: self.TargetUserSid@,
            target_user_name: self.TargetUserName@,
            target_domain_name: self.TargetDomainName@,
            target_logon_id: self.TargetLogonId@,
        }
    }
}

impl Default for EventLogon {
    /// The event 0 with every text empty.
    fn default() -> (logon: EventLogon)
        ensures
            logon@ == (LogonModel {
                event_id: 0,
                time_created: Seq::empty(),
                subject_user_sid: Seq::empty(),
                subject_user_name: Seq::empty(),
                subject_domain_name: Seq::empty(),
                subject_logon_id: Seq::empty(),
                target_user_sid: Seq::empty(),
                target_user_name: Seq::empty(),
                target_domain_name: Seq::empty(),
                target_logon_id: Seq::empty(),
            }),
    {
        EventLogon {
            EventID: 0,
            TimeCreated: String::new(),
            SubjectUserSid: String::new(),
            SubjectUserName: String::new(),
            SubjectDomainName: String::new(),
            SubjectLogonId: String::new(),
            TargetUserSid: String::new(),
            TargetUserName: String::new(),
            TargetDomainName: String::new(),
            TargetLogonId: String::new(),
        }
    }
}

/// `name` between two single quotes, as the log writes the value of the
/// attribute `Name`.
pub open spec fn quoted(name: Seq<char>) -> Seq<char> {
    seq!['\''] + name + seq!['\'']
}

/// The text of the first child of `element`, if that child has one.
pub open spec fn first_text(element: ElementModel) -> Option<Seq<char>> {
    if element.children.len() > 0 {
        element.children[0].value
    } else {
        None
    }
}

/// The value that the section `event_data` gives under the name
/// `data_name`: the text inside its first child whose attribute `Name` is
/// the quoted name, and the empty text where there is no such child or no
/// such text.
pub open spec fn data_value(event_data: ElementModel, data_name: Seq<char>) -> Seq<char> {
    match first_named(event_data.children, quoted(data_name)) {
        Some(i) => match first_text(event_data.children[i]) {
            Some(text) => text,
            None => Seq::empty(),
        },
        None => Seq::empty(),
    }
}

/// A copy of the text of the first child of `element`.
pub fn text_inside(element: &Element) -> (text: Option<String>)
    ensures
        crate::tree::text_model(text) == first_text(element@),
{
    proof {
        lemma_children_models(*element);
    }
    if element.children.len() == 0 {
        return None;
    }
    assert(element@.children[0] == element.children@[0]@);
    match &element.children[0].value {
        Some(text) => Some(text.clone()),
        None => None,
    }
}

/// The value that the section `event_data` gives under the name
/// `data_name`.
pub fn get_attribute(event_data: &Element, data_name: &str) -> (value: String)
    ensures
        value@ == data_value(event_data@, data_name@),
{
    let mut wanted = String::new();
    wanted.push('\'');
    wanted.append(data_name);
    wanted.push('\'');
    assert(wanted@ =~= quoted(data_name@));
    proof {
        lemma_children_models(*event_data);
    }
    match event_data.child_named(wanted.as_str()) {
        Some(i) => {
            assert(event_data@.children[i as int] == event_data.children@[i as int]@);
            match text_inside(&event_data.children[i]) {
                Some(text) => text,
                None => String::new(),
            }
        },
        None => String::new(),
    }
}

/// The kinds of event that a report tells apart.
#[derive(Debug, Clone, Copy, PartialEq, Eq, Structural)]
pub enum LogonKind {
    /// A logon that succeeded: the event 4624.
    Success,
    /// A logon that failed: the event 4625.
    Failure,
    /// Any other event.
    Other,
}

/// What is wrong with an event that cannot be read.
#[derive(Debug, Clone, Copy, PartialEq, Eq, Structural)]
pub enum EventFault {
    /// The event has no section `system`.
    MissingSystem,
    /// The section `system` has no element `eventid`.
    MissingEventId,
    /// The element `eventid` is empty.
    EmptyEventId,
    /// The element `eventid` does not begin with text.
    EventIdNotText,
}

/// One event with its kind.
#[derive(Debug, Clone, PartialEq, Eq)]
pub struct Reading {
    pub kind: LogonKind,
    pub logon: EventLogon,
}

/// What a [`Reading`] holds.
pub struct ReadingModel {
    pub kind: LogonKind,
    pub logon: LogonModel,
}

impl View for Reading {
    type V = ReadingModel;

    open spec fn view(&self) -> ReadingModel {
        ReadingModel { kind: self.kind, logon: self.logon@ }
    }
}

/// The kind of the event whose identifier is written `id`. The text is
/// compared as it stands: `+4624` is no logon.
pub open spec fn kind_of(id: Seq<char>) -> LogonKind {
    if id == "4624"@ {
        LogonKind::Success
    } else if id == "4625"@ {
        LogonKind::Failure
    } else {
        LogonKind::Other
    }
}

/// The number that the identifier `id` spells, and 0 where it spells none
/// that fits.
pub open spec fn id_number(id: Seq<char>) -> nat {
    match crate::number::usize_of(id) {
        Some(n) => n as nat,
        None => 0,
    }
}

/// The time that the section `system` gives: the attribute `SystemTime` of
/// its first element `timecreated` as text, and the empty text where there
/// is none.
pub open spec fn time_created(system: ElementModel) -> Seq<char> {
    match first_tagged(system.children, "timecreated"@) {
        Some(i) => match system.children[i].system_time {
            Some(value) => rendering(value),
            None => Seq::empty(),
        },
        None => Seq::empty(),
    }
}

/// The logon that the sections `system` and `event_data` describe, under
/// the identifier `id`.
pub open spec fn logon_of(system: ElementModel, event_data: ElementModel, id: Seq<char>) -> LogonModel {
    LogonModel {
        event_id: id_number(id),
        time_created: time_created(system),
        subject_user_sid: data_value(event_data, "SubjectUserSid"@),
        subject_user_name: data_value(event_data, "SubjectUserName"@),
        subject_domain_name: data_value(event_data, "SubjectDomainName"@),
        subject_logon_id: data_value(event_data, "SubjectLogonId"@),
        target_user_sid: data_value(event_data, "TargetUserSid"@),
        target_user_name: data_value(event_data, "TargetUserName"@),
        target_domain_name: data_value(event_data, "TargetDomainName"@),
        target_logon_id: data_value(event_data, "TargetLogonId"@),
    }
}

/// The identifier that the section `system` gives: the text that its first
/// element `eventid` begins with.
pub open spec fn event_id_text(system: ElementModel) -> Result<Seq<char>, EventFault> {
    match first_tagged(system.children, "eventid"@) {
        None => Err(EventFault::MissingEventId),
        Some(i) => if system.children[i].children.len() == 0 {
            Err(EventFault::EmptyEventId)
        } else {
            match system.children[i].children[0].value {
                Some(text) => Ok(text),
                None => Err(EventFault::EventIdNotText),
            }
        },
    }
}

/// What `event` says. An event without a section `system` is faulty; one
/// with it and without a section `eventdata` says nothing; every other one
/// is read, if its section `system` gives an identifier.
pub open spec fn event_reading(event: ElementModel) -> Result<Option<ReadingModel>, EventFault> {
    match first_tagged(event.children, "system"@) {
        None => Err(EventFault::MissingSystem),
        Some(s) => match first_tagged(event.children, "eventdata"@) {
            None => Ok(None),
            Some(d) => match event_id_text(event.children[s]) {
                Err(fault) => Err(fault),
                Ok(id) => Ok(
                    Some(
                        ReadingModel {
                            kind: kind_of(id),
                            logon: logon_of(event.children[s], event.children[d], id),
                        },
                    ),
                ),
            },
        },
    }
}

/// The model of what [`read_event`] returns.
pub open spec fn reading_model(reading: Result<Option<Reading>, EventFault>) -> Result<
    Option<ReadingModel>,
    EventFault,
> {
    match reading {
        Ok(Some(reading)) => Ok(Some(reading@)),
        Ok(None) => Ok(None),
        Err(fault) => Err(fault),
    }
}

/// The identifier that the section `system` gives.
pub fn read_event_id(system: &Element) -> (id: Result<String, EventFault>)
    ensures
        match id {
            Ok(text) => event_id_text(system@) == Ok::<Seq<char>, EventFault>(text@),
            Err(fault) => event_id_text(system@) == Err::<Seq<char>, EventFault>(fault),
        },
{
    proof {
        lemma_children_models(*system);
    }
    match system.child_with_tag("eventid") {
        None => Err(EventFault::MissingEventId),
        Some(i) => {
            let holder = &system.children[i];
            assert(system@.children[i as int] == holder@);
            proof {
                lemma_children_models(*holder);
            }
            if holder.children.len() == 0 {
                Err(EventFault::EmptyEventId)
            } else {
                assert(holder@.children[0] == holder.children@[0]@);
                match &holder.children[0].value {
                    Some(text) => Ok(text.clone()),
                    None => Err(EventFault::EventIdNotText),
                }
            }
        },
    }
}

/// The time that the section `system` gives.
pub fn read_time_created(system: &Element) -> (time: String)
    ensures
        time@ == time_created(system@),
{
    proof {
        lemma_children_models(*system);
    }
    match system.child_with_tag("timecreated") {
        Some(i) => {
            assert(system@.children[i as int] == system.children@[i as int]@);
            match &system.children[i].system_time {
                Some(value) => value.rendered(),
                None => String::new(),
            }
        },
        None => String::new(),
    }
}

/// The kind of the event whose identifier is written `id`.
pub fn classify(id: &String) -> (kind: LogonKind)
    ensures
        kind == kind_of(id@),
{
    if *id == "4624".to_owned() {
        LogonKind::Success
    } else if *id == "4625".to_owned() {
        LogonKind::Failure
    } else {
        LogonKind::Other
    }
}

/// Reads one event of the log.
pub fn read_event(event: &Element) -> (reading: Result<Option<Reading>, EventFault>)
    ensures
        reading_model(reading) == event_reading(event@),
{
    proof {
        lemma_children_models(*event);
    }
    let s = match event.child_with_tag("system") {
        Some(s) => s,
        None => {
            return Err(EventFault::MissingSystem);
        },
    };
    let d = match event.child_with_tag("eventdata") {
        Some(d) => d,
        None => {
            return Ok(None);
        },
    };
    let system = &event.children[s];
    let event_data = &event.children[d];
    assert(event@.children[s as int] == system@);
    assert(event@.children[d as int] == event_data@);
    let id = match read_event_id(system) {
        Ok(id) => id,
        Err(fault) => {
            return Err(fault);
        },
    };
    let number = match crate::number::parse_usize(id.as_str()) {
        Some(n) => n,
        None => 0,
    };
    let logon = EventLogon {
        EventID: number,
        TimeCreated: read_time_created(system),
        SubjectUserSid: get_attribute(event_data, "SubjectUserSid"),
        SubjectUserName: get_attribute(event_data, "SubjectUserName"),
        SubjectDomainName: get_attribute(event_data, "SubjectDomainName"),
        SubjectLogonId: get_attribute(event_data, "SubjectLogonId"),
        TargetUserSid: get_attribute(event_data, "TargetUserSid"),
        TargetUserName: get_attribute(event_data, "TargetUserName"),
        TargetDomainName: get_attribute(event_data, "TargetDomainName"),
        TargetLogonId: get_attribute(event_data, "TargetLogonId"),
    };
    Ok(Some(Reading { kind: classify(&id), logon }))
}

/// The logons of a log by their kind.
#[derive(Debug, Clone, PartialEq, Eq)]
pub struct Logons {
    /// The logons that succeeded, in the order of the log.
    pub succeeded: Vec<EventLogon>,
    /// The logons that failed, in the order of the log.
    pub failed: Vec<EventLogon>,
}

/// The views of `logons`, in order.
pub open spec fn logon_models(logons: Seq<EventLogon>) -> Seq<LogonModel> {
    logons.map_values(|logon: EventLogon| logon@)
}

/// The fault of the first of `events` that cannot be read.
pub open spec fn first_fault(events: Seq<ElementModel>) -> Option<EventFault>
    decreases events.len(),
{
    if events.len() == 0 {
        None
    } else {
        match first_fault(events.drop_last()) {
            Some(fault) => Some(fault),
            None => match event_reading(events.last()) {
                Err(fault) => Some(fault),
                Ok(_) => None,
            },
        }
    }
}

/// The logons of the kind `kind` among `events`, in their order.
pub open spec fn logons_of_kind(events: Seq<ElementModel>, kind: LogonKind) -> Seq<LogonModel>
    decreases events.len(),
{
    if events.len() == 0 {
        Seq::empty()
    } else {
        let before = logons_of_kind(events.drop_last(), kind);
        match event_reading(events.last()) {
            Ok(Some(reading)) => if reading.kind == kind {
                before.push(reading.logon)
            } else {
                before
            },
            _ => before,
        }
    }
}

/// A fault among the first events of a log is the log's first fault.
pub proof fn lemma_fault_stays(events: Seq<ElementModel>, k: int)
    requires
        0 <= k <= events.len(),
        first_fault(events.take(k)) is Some,
    ensures
        first_fault(events) == first_fault(events.take(k)),
    decreases events.len() - k,
{
    if k < events.len() {
        assert(events.drop_last().take(k) =~= events.take(k));
        lemma_fault_stays(events.drop_last(), k);
    } else {
        assert(events.take(k) =~= events);
    }
}

/// Reads the events of a log, the children of `root`, and keeps the logons
/// that succeeded and those that failed. Stops at the first event that
/// cannot be read.
pub fn collect_logons(root: &Element) -> (logons: Result<Logons, EventFault>)
    ensures
        match logons {
            Ok(found) => {
                &&& first_fault(root@.children) is None
                &&& logon_models(found.succeeded@) == logons_of_kind(
                    root@.children,
                    LogonKind::Success,
                )
                &&& logon_models(found.failed@) == logons_of_kind(
                    root@.children,
                    LogonKind::Failure,
                )
            },
            Err(fault) => first_fault(root@.children) == Some(fault),
        },
{
    proof {
        lemma_children_models(*root);
    }
    let ghost events = root@.children;
    let mut succeeded: Vec<EventLogon> = Vec::new();
    let mut failed: Vec<EventLogon> = Vec::new();
    let mut i: usize = 0;
    assert(events.take(0) =~= Seq::<ElementModel>::empty());
    assert(logon_models(succeeded@) =~= Seq::<LogonModel>::empty());
    assert(logon_models(failed@) =~= Seq::<LogonModel>::empty());
    while i < root.children.len()
        invariant
            i <= root.children@.len(),
            events == root@.children,
            events == crate::tree::models(root.children@),
            first_fault(events.take(i as int)) is None,
            logon_models(succeeded@) == logons_of_kind(events.take(i as int), LogonKind::Success),
            logon_models(failed@) == logons_of_kind(events.take(i as int), LogonKind::Failure),
        decreases root.children@.len() - i,
    {
        let reading = read_event(&root.children[i]);
        proof {
            let next = events.take(i as int + 1);
            assert(next.drop_last() =~= events.take(i as int));
            assert(next.last() == root.children@[i as int]@);
        }
        match reading {
            Err(fault) => {
                proof {
                    lemma_fault_stays(events, i as int + 1);
                }
                return Err(fault);
            },
            Ok(None) => {},
            Ok(Some(reading)) => {
                let ghost model = reading.logon@;
                match reading.kind {
                    LogonKind::Success => {
                        let ghost before = succeeded@;
                        succeeded.push(reading.logon);
                        assert(logon_models(succeeded@) =~= logon_models(before).push(model));
                    },
                    LogonKind::Failure => {
                        let ghost before = failed@;
                        failed.push(reading.logon);
                        assert(logon_models(failed@) =~= logon_models(before).push(model));
                    },
                    LogonKind::Other => {},
                }
            },
        }
        i = i + 1;
    }
    assert(events.take(i as int) =~= events);
    Ok(Logons { succeeded, failed })
}

} // verus!
