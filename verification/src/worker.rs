//! A worker: the rule engine of a share of the traffic, fed from a channel.
use crate::config::Config;
use crate::event::NetworkEvent;
use crate::rules::engine::{
    evaluated, idle_at, idle_mask, offered_in_order, pruned, retained, rules_apply, Observation,
};
use crate::rules::RuleEngine;
use std::sync::Arc;
use std::time::Instant;
use tokio::sync::mpsc::Receiver;
use vstd::prelude::*;

verus! {

/// A worker: its number, the configuration, its rule engine and the channel
/// its events arrive on.
pub struct Worker {
    id: usize,
    config: Arc<Config>,
    rule_engine: RuleEngine,
    rx: Receiver<NetworkEvent>,
}

impl Worker {
    pub closed spec fn spec_id(&self) -> usize {
        self.id
    }

    pub closed spec fn config_view(&self) -> Config {
        *self.config
    }

    pub closed spec fn engine(&self) -> RuleEngine {
        self.rule_engine
    }

    /// The channel the worker's events arrive on.
    pub closed spec fn events(&self) -> Receiver<NetworkEvent> {
        self.rx
    }

    /// The worker's engine is well formed.
    pub open spec fn wf(&self) -> bool {
        self.engine().wf()
    }

    /// A worker numbered `id`.
    pub fn new(id: usize, config: Arc<Config>, rule_engine: RuleEngine, rx: Receiver<NetworkEvent>) -> (w:
        Self)
        requires
            rule_engine.wf(),
        ensures
            w.spec_id() == id,
            w.config_view() == *config,
            w.engine() == rule_engine,
            w.events() == rx,
            w.wf(),
    {
        Worker { id, config, rule_engine, rx }
    }

    /// The worker's number.
    pub fn id(&self) -> (r: usize)
        ensures
            r == self.spec_id(),
    {
        self.id
    }

    /// Seconds between two cleanups of the engine.
    pub fn cleanup_interval(&self) -> (r: u32)
        ensures
            r == self.config_view().memory.cleanup_interval,
    {
        self.config.memory.cleanup_interval
    }

    /// Whether the worker's engine can take the event (see
    /// `RuleEngine::accepts`).
    pub fn accepts(&self, event: &NetworkEvent) -> (r: bool)
        ensures
            r == rules_apply(self.engine().rules_view(), *event),
    {
        self.rule_engine.accepts(event)
    }

    /// An event arrived: the engine evaluates it and offers each ban it
    /// issues to the firewall's channel and then to storage's.
    pub fn handle_event(&mut self, event: &NetworkEvent)
        requires
            old(self).wf(),
            rules_apply(old(self).engine().rules_view(), *event),
        ensures
            final(self).wf(),
            final(self).spec_id() == old(self).spec_id(),
            final(self).config_view() == old(self).config_view(),
            final(self).events() == old(self).events(),
            final(self).engine().rules_view() == old(self).engine().rules_view(),
            final(self).engine().firewall_channel() == old(self).engine().firewall_channel(),
            final(self).engine().storage_channel() == old(self).engine().storage_channel(),
            final(self).engine().offers().take(old(self).engine().offers().len() as int)
                == old(self).engine().offers(),
            exists|obs: Seq<Observation>|
                obs.len() == old(self).engine().rules_view().len() && (#[trigger] evaluated(
                    old(self).engine().groups_view(),
                    old(self).engine().rules_view(),
                    *event,
                    obs,
                    old(self).engine().rules_view().len(),
                )).0 == final(self).engine().groups_view() && offered_in_order(
                    final(self).engine().offers(),
                    old(self).engine().offers().len() as int,
                    evaluated(
                        old(self).engine().groups_view(),
                        old(self).engine().rules_view(),
                        *event,
                        obs,
                        old(self).engine().rules_view().len(),
                    ).1,
                    old(self).engine().firewall_channel(),
                    old(self).engine().storage_channel(),
                ),
    {
        let _ = self.rule_engine.evaluate(event);
    }

    /// The cleanup interval elapsed: the engine drops the states idle for a
    /// minute as of `now` that are not banned, and applies the configured
    /// size limit.
    pub fn handle_tick(&mut self, now: Instant)
        requires
            old(self).wf(),
        ensures
            final(self).wf(),
            final(self).spec_id() == old(self).spec_id(),
            final(self).config_view() == old(self).config_view(),
            final(self).events() == old(self).events(),
            final(self).engine().rules_view() == old(self).engine().rules_view(),
            final(self).engine().offers_kept(&old(self).engine()),
            final(self).engine().groups_view() == pruned(
                retained(
                    old(self).engine().groups_view(),
                    idle_mask(old(self).engine().groups_view(), idle_at(old(self).engine().groups_view(), now)),
                ),
                old(self).config_view().memory.max_entries,
                old(self).engine().rules_view().len(),
            ),
    {
        let max_entries = self.config.memory.max_entries;
        self.rule_engine.cleanup(now, max_entries);
    }

    /// The channel the worker's events arrive on.
    pub fn receiver(&mut self) -> (rx: &mut Receiver<NetworkEvent>)
        ensures
            *rx == old(self).events(),
            final(self).events() == *final(rx),
            final(self).spec_id() == old(self).spec_id(),
            final(self).config_view() == old(self).config_view(),
            final(self).engine() == old(self).engine(),
    {
        &mut self.rx
    }
}

} // verus!
