//! Usage tracking and feedback data.
//!
//! The tracker queues usage events and hands full batches back to the
//! caller for persisting; the feedback types describe what a user
//! submits. Disk, network and the ambient system facts (identifiers,
//! platform names, the clock) are the embedding application's part and
//! arrive here as plain values. The process-wide telemetry flag of the
//! original design is an explicit [`TelemetrySwitch`] value instead.

use vstd::prelude::*;
use vstd::string::*;
use crate::config::{Config, TelemetryConfig};

verus! {

/// Whether telemetry is on; handed around explicitly.
pub struct TelemetrySwitch {
    /// The flag
    pub enabled: bool,
}

/// The switch for a loaded configuration: on exactly when the telemetry
/// section exists and enables it.
pub fn init(config: &Config) -> (r: TelemetrySwitch)
    ensures
        r.enabled == (config.telemetry matches Some(t) && t.enabled),
{
    match &config.telemetry {
        Some(t) => TelemetrySwitch { enabled: t.enabled },
        None => TelemetrySwitch { enabled: false },
    }
}

/// Whether telemetry is enabled.
pub fn is_telemetry_enabled(switch: &TelemetrySwitch) -> (r: bool)
    ensures
        r == switch.enabled,
{
    switch.enabled
}

/// Turns telemetry on or off.
pub fn set_telemetry_enabled(switch: &mut TelemetrySwitch, enabled: bool)
    ensures
        final(switch).enabled == enabled,
{
    switch.enabled = enabled;
}

/// One usage event.
#[derive(Debug)]
pub struct UsageEvent {
    /// What happened
    pub event_type: String,
    /// Event properties, one value per key
    pub properties: Vec<(String, String)>,
    /// Seconds since the epoch
    pub timestamp: u64,
}

/// The queue is flushed to disk when it reaches this many events.
pub const EVENT_FLUSH_THRESHOLD: usize = 100;

/// Queues usage events for an anonymous user.
pub struct UsageTracker {
    /// Anonymous user identifier
    pub user_id: String,
    /// Telemetry settings
    pub config: TelemetryConfig,
    /// Where usage data is persisted
    pub data_path: String,
    /// Events not yet persisted
    pub event_queue: Vec<UsageEvent>,
}

/// The new tracker state and result after recording one event: nothing
/// happens with telemetry off; otherwise the event joins the queue, and
/// a queue that reached the flush threshold is handed out for saving.
pub open spec fn recorded_event(
    old_t: UsageTracker,
    new_t: UsageTracker,
    enabled: bool,
    event_type: Seq<char>,
    properties: Vec<(String, String)>,
    now_secs: u64,
    batch: Option<Vec<UsageEvent>>,
) -> bool {
    &&& new_t.user_id == old_t.user_id
    &&& new_t.config == old_t.config
    &&& new_t.data_path == old_t.data_path
    &&& if !enabled {
        new_t.event_queue@ == old_t.event_queue@ && batch is None
    } else {
        let queued = old_t.event_queue@.len() + 1;
        &&& (batch is Some) == (queued >= EVENT_FLUSH_THRESHOLD)
        &&& (batch matches Some(events) ==> {
            &&& events@.len() == queued
            &&& events@.subrange(0, old_t.event_queue@.len() as int) == old_t.event_queue@
            &&& events@.last().event_type@ == event_type
            &&& events@.last().properties == properties
            &&& events@.last().timestamp == now_secs
            &&& new_t.event_queue@.len() == 0
        })
        &&& (batch is None ==> {
            &&& new_t.event_queue@.len() == queued
            &&& new_t.event_queue@.subrange(0, old_t.event_queue@.len() as int)
                == old_t.event_queue@
            &&& new_t.event_queue@.last().event_type@ == event_type
            &&& new_t.event_queue@.last().properties == properties
            &&& new_t.event_queue@.last().timestamp == now_secs
        })
    }
}

impl UsageTracker {
    /// A tracker for the given settings; the identifier and the data
    /// path were resolved by the embedding application.
    pub fn new(config: TelemetryConfig, user_id: String, data_path: String) -> (r: Self)
        ensures
            r.user_id == user_id,
            r.config == config,
            r.data_path == data_path,
            r.event_queue@.len() == 0,
    {
        UsageTracker { user_id, config, data_path, event_queue: Vec::new() }
    }

    /// Records one event. With telemetry off nothing is recorded. A
    /// queue that reaches the flush threshold is drained and returned,
    /// for the caller to persist; on failure it hands the batch back via
    /// [`Self::requeue_events`].
    pub fn record_event(
        &mut self,
        switch: &TelemetrySwitch,
        event_type: &str,
        properties: Vec<(String, String)>,
        now_secs: u64,
    ) -> (batch: Option<Vec<UsageEvent>>)
        ensures
            recorded_event(
                *old(self),
                *final(self),
                switch.enabled,
                event_type@,
                properties,
                now_secs,
                batch,
            ),
    {
        if !switch.enabled {
            return None;
        }
        let event = UsageEvent {
            event_type: event_type.to_owned(),
            properties,
            timestamp: now_secs,
        };
        self.event_queue.push(event);
        if self.event_queue.len() >= EVENT_FLUSH_THRESHOLD {
            let mut drained: Vec<UsageEvent> = Vec::new();
            core::mem::swap(&mut drained, &mut self.event_queue);
            proof {
                assert(drained@.subrange(0, old(self).event_queue@.len() as int) =~= old(self).event_queue@);
            }
            Some(drained)
        } else {
            proof {
                assert(self.event_queue@.subrange(0, old(self).event_queue@.len() as int) =~= old(self).event_queue@);
            }
            None
        }
    }

    /// Puts a batch whose save failed back at the end of the queue.
    pub fn requeue_events(&mut self, mut events: Vec<UsageEvent>)
        ensures
            final(self).event_queue@ == old(self).event_queue@ + events@,
            final(self).user_id == old(self).user_id,
            final(self).config == old(self).config,
            final(self).data_path == old(self).data_path,
    {
        self.event_queue.append(&mut events);
    }

    /// Records a command execution.
    pub fn record_command(
        &mut self,
        switch: &TelemetrySwitch,
        command: &str,
        now_secs: u64,
    ) -> (batch: Option<Vec<UsageEvent>>)
        ensures
            exists|props: Vec<(String, String)>|
                {
                    &&& (#[trigger] props@).len() == 1
                    &&& props@[0].0@ == "command"@
                    &&& props@[0].1@ == command@
                    &&& recorded_event(
                        *old(self),
                        *final(self),
                        switch.enabled,
                        "command_executed"@,
                        props,
                        now_secs,
                        batch,
                    )
                },
    {
        let mut properties: Vec<(String, String)> = Vec::new();
        properties.push(("command".to_owned(), command.to_owned()));
        let ghost p = properties;
        let batch = self.record_event(switch, "command_executed", properties, now_secs);
        proof {
            assert(p@.len() == 1);
        }
        batch
    }

    /// Records an accepted dropdown suggestion.
    pub fn record_suggestion_accepted(
        &mut self,
        switch: &TelemetrySwitch,
        suggestion: &str,
        source: &str,
        now_secs: u64,
    ) -> (batch: Option<Vec<UsageEvent>>)
        ensures
            exists|props: Vec<(String, String)>|
                {
                    &&& (#[trigger] props@).len() == 2
                    &&& props@[0].0@ == "suggestion"@
                    &&& props@[0].1@ == suggestion@
                    &&& props@[1].0@ == "source"@
                    &&& props@[1].1@ == source@
                    &&& recorded_event(
                        *old(self),
                        *final(self),
                        switch.enabled,
                        "suggestion_accepted"@,
                        props,
                        now_secs,
                        batch,
                    )
                },
    {
        let mut properties: Vec<(String, String)> = Vec::new();
        properties.push(("suggestion".to_owned(), suggestion.to_owned()));
        properties.push(("source".to_owned(), source.to_owned()));
        let ghost p = properties;
        let batch = self.record_event(switch, "suggestion_accepted", properties, now_secs);
        proof {
            assert(p@.len() == 2);
        }
        batch
    }

    /// Records an accepted ghost text.
    pub fn record_ghost_accepted(
        &mut self,
        switch: &TelemetrySwitch,
        ghost_text: &str,
        now_secs: u64,
    ) -> (batch: Option<Vec<UsageEvent>>)
        ensures
            exists|props: Vec<(String, String)>|
                {
                    &&& (#[trigger] props@).len() == 1
                    &&& props@[0].0@ == "ghost_text"@
                    &&& props@[0].1@ == ghost_text@
                    &&& recorded_event(
                        *old(self),
                        *final(self),
                        switch.enabled,
                        "ghost_accepted"@,
                        props,
                        now_secs,
                        batch,
                    )
                },
    {
        let mut properties: Vec<(String, String)> = Vec::new();
        properties.push(("ghost_text".to_owned(), ghost_text.to_owned()));
        let ghost p = properties;
        let batch = self.record_event(switch, "ghost_accepted", properties, now_secs);
        proof {
            assert(p@.len() == 1);
        }
        batch
    }

    /// Records one AI query.
    pub fn record_ai_query(
        &mut self,
        switch: &TelemetrySwitch,
        query_type: &str,
        now_secs: u64,
    ) -> (batch: Option<Vec<UsageEvent>>)
        ensures
            exists|props: Vec<(String, String)>|
                {
                    &&& (#[trigger] props@).len() == 1
                    &&& props@[0].0@ == "type"@
                    &&& props@[0].1@ == query_type@
                    &&& recorded_event(
                        *old(self),
                        *final(self),
                        switch.enabled,
                        "ai_query"@,
                        props,
                        now_secs,
                        batch,
                    )
                },
    {
        let mut properties: Vec<(String, String)> = Vec::new();
        properties.push(("type".to_owned(), query_type.to_owned()));
        let ghost p = properties;
        let batch = self.record_event(switch, "ai_query", properties, now_secs);
        proof {
            assert(p@.len() == 1);
        }
        batch
    }

    /// Hands out every queued event for persisting; an empty queue
    /// yields nothing.
    pub fn flush(&mut self) -> (batch: Option<Vec<UsageEvent>>)
        ensures
            final(self).user_id == old(self).user_id,
            final(self).config == old(self).config,
            final(self).data_path == old(self).data_path,
            (batch is Some) == (old(self).event_queue@.len() > 0),
            batch matches Some(events) ==> events@ == old(self).event_queue@ && final(self).event_queue@.len() == 0,
            batch is None ==> final(self).event_queue@ == old(self).event_queue@,
    {
        if self.event_queue.len() == 0 {
            return None;
        }
        let mut drained: Vec<UsageEvent> = Vec::new();
        core::mem::swap(&mut drained, &mut self.event_queue);
        Some(drained)
    }
}

/// What a user submitted as feedback.
#[derive(Debug)]
pub struct Feedback {
    /// Unique identifier of this submission
    pub id: String,
    /// What the feedback concerns
    pub category: FeedbackCategory,
    /// A rating from one to five, if given
    pub rating: Option<u8>,
    /// The feedback text
    pub content: String,
    /// Contact email, if given
    pub email: Option<String>,
    /// Whether this reports a bug
    pub is_bug_report: bool,
    /// The submitting system
    pub system_info: SystemInfo,
    /// Seconds since the epoch at submission
    pub timestamp: u64,
}

/// What a piece of feedback concerns.
#[derive(Clone, Copy, Debug, PartialEq, Eq, Structural)]
pub enum FeedbackCategory {
    /// General feedback
    General,
    /// Suggestion system feedback
    Suggestions,
    /// AI integration feedback
    AI,
    /// Interface feedback
    UI,
    /// Performance feedback
    Performance,
    /// Bug report
    BugReport,
    /// Feature request
    FeatureRequest,
}

/// Facts about the submitting system, gathered by the embedding
/// application.
#[derive(Debug)]
pub struct SystemInfo {
    /// Application version
    pub version: String,
    /// Operating system
    pub os: String,
    /// Operating system version
    pub os_version: String,
    /// Processor architecture
    pub arch: String,
    /// The user's shell
    pub shell: String,
    /// The user's terminal
    pub terminal: String,
}

/// A feedback record from its parts; the identifier and the system
/// facts come from the embedding application.
pub fn create_feedback(
    id: String,
    category: FeedbackCategory,
    content: String,
    rating: Option<u8>,
    email: Option<String>,
    is_bug_report: bool,
    system_info: SystemInfo,
    now_secs: u64,
) -> (r: Feedback)
    ensures
        r.id == id,
        r.category == category,
        r.rating == rating,
        r.content == content,
        r.email == email,
        r.is_bug_report == is_bug_report,
        r.system_info == system_info,
        r.timestamp == now_secs,
{
    Feedback { id, category, rating, content, email, is_bug_report, system_info, timestamp: now_secs }
}

} // verus!
