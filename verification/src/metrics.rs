//! Performance measurement.
//!
//! A metrics context is constructed explicitly and passed to whoever
//! measures; there is no ambient registry. A timer notes its start
//! instant on entry and records the delta on every exit path, through
//! an explicit call rather than a destructor; the clock readings come
//! from the embedding application.

use vstd::prelude::*;
use vstd::string::*;
use crate::models::spec_elapsed;
use crate::text;

verus! {

/// Aggregated timings of one named operation, in nanoseconds.
#[derive(Debug)]
pub struct OperationMetrics {
    /// The operation's name
    pub name: String,
    /// How often it ran
    pub call_count: u64,
    /// Total time spent
    pub total_duration_ns: u64,
    /// Shortest run; the sentinel maximum before the first run
    pub min_duration_ns: u64,
    /// Longest run
    pub max_duration_ns: u64,
}

impl Clone for OperationMetrics {
    /// A copy equal to the original in every field.
    fn clone(&self) -> (r: Self)
        ensures
            r == *self,
    {
        OperationMetrics {
            name: self.name.clone(),
            call_count: self.call_count,
            total_duration_ns: self.total_duration_ns,
            min_duration_ns: self.min_duration_ns,
            max_duration_ns: self.max_duration_ns,
        }
    }
}

impl OperationMetrics {
    /// Fresh metrics for one operation: nothing recorded yet.
    pub fn new(name: &str) -> (r: Self)
        ensures
            r.name@ == name@,
            r.call_count == 0,
            r.total_duration_ns == 0,
            r.min_duration_ns == u64::MAX,
            r.max_duration_ns == 0,
    {
        OperationMetrics {
            name: name.to_owned(),
            call_count: 0,
            total_duration_ns: 0,
            min_duration_ns: u64::MAX,
            max_duration_ns: 0,
        }
    }

    /// Folds one more run into the aggregate; the counters saturate
    /// instead of wrapping.
    pub fn update(&mut self, duration_ns: u64)
        ensures
            final(self).name == old(self).name,
            final(self).call_count == (if old(self).call_count < u64::MAX {
                old(self).call_count + 1
            } else {
                u64::MAX as int
            }),
            final(self).total_duration_ns == (if old(self).total_duration_ns + duration_ns
                <= u64::MAX {
                old(self).total_duration_ns + duration_ns
            } else {
                u64::MAX as int
            }),
            final(self).min_duration_ns == (if duration_ns < old(self).min_duration_ns {
                duration_ns
            } else {
                old(self).min_duration_ns
            }),
            final(self).max_duration_ns == (if duration_ns > old(self).max_duration_ns {
                duration_ns
            } else {
                old(self).max_duration_ns
            }),
    {
        self.call_count = if self.call_count < u64::MAX {
            self.call_count + 1
        } else {
            self.call_count
        };
        self.total_duration_ns = if duration_ns <= u64::MAX - self.total_duration_ns {
            self.total_duration_ns + duration_ns
        } else {
            u64::MAX
        };
        if duration_ns < self.min_duration_ns {
            self.min_duration_ns = duration_ns;
        }
        if duration_ns > self.max_duration_ns {
            self.max_duration_ns = duration_ns;
        }
    }

    /// The mean duration of a run, zero before the first run.
    pub fn avg_duration(&self) -> (r: u64)
        ensures
            r == (if self.call_count == 0 {
                0int
            } else {
                self.total_duration_ns as int / self.call_count as int
            }),
    {
        if self.call_count == 0 {
            0
        } else {
            self.total_duration_ns / self.call_count
        }
    }
}

/// The timings of one component's operations.
#[derive(Debug)]
pub struct ComponentMetrics {
    /// The component's name
    pub name: String,
    /// How many measured operations started
    pub operation_count: u64,
    /// Aggregates, one per operation name
    pub operations: Vec<OperationMetrics>,
}

/// A measurement context for one component.
#[derive(Debug)]
pub struct PerformanceMetrics {
    /// The component's name
    pub component_name: String,
    /// The aggregated timings
    pub metrics: ComponentMetrics,
}

/// All operation names pairwise distinct.
pub open spec fn unique_operation_names(s: Seq<OperationMetrics>) -> bool {
    forall|i: int, j: int|
        0 <= i < j < s.len() ==> #[trigger] s[i].name@ != #[trigger] s[j].name@
}

/// The aggregate after one more run of `duration_ns` was folded in.
pub open spec fn folded_run(
    old_op: OperationMetrics,
    new_op: OperationMetrics,
    duration_ns: int,
) -> bool {
    &&& new_op.name == old_op.name
    &&& new_op.call_count == (if old_op.call_count < u64::MAX {
        old_op.call_count + 1
    } else {
        u64::MAX as int
    })
    &&& new_op.total_duration_ns == (if old_op.total_duration_ns + duration_ns <= u64::MAX {
        old_op.total_duration_ns + duration_ns
    } else {
        u64::MAX as int
    })
    &&& new_op.min_duration_ns == (if duration_ns < old_op.min_duration_ns {
        duration_ns
    } else {
        old_op.min_duration_ns as int
    })
    &&& new_op.max_duration_ns == (if duration_ns > old_op.max_duration_ns {
        duration_ns
    } else {
        old_op.max_duration_ns as int
    })
}

/// A running measurement: the operation's name and when it started.
#[derive(Debug)]
pub struct OperationTimer {
    /// What is being measured
    pub operation_name: String,
    /// When it started, nanoseconds
    pub start_ns: u64,
}

impl PerformanceMetrics {
    /// The context invariant: one aggregate per operation name.
    pub open spec fn wf(self) -> bool {
        unique_operation_names(self.metrics.operations@)
    }

    /// A fresh context for the component: no operations measured yet.
    pub fn new(component_name: &str) -> (r: Self)
        ensures
            r.wf(),
            r.component_name@ == component_name@,
            r.metrics.name@ == component_name@,
            r.metrics.operation_count == 0,
            r.metrics.operations@.len() == 0,
    {
        PerformanceMetrics {
            component_name: component_name.to_owned(),
            metrics: ComponentMetrics {
                name: component_name.to_owned(),
                operation_count: 0,
                operations: Vec::new(),
            },
        }
    }

    /// Starts measuring one operation at instant `now_ns`; the caller
    /// finishes the measurement with [`OperationTimer::record`] on
    /// every exit path.
    pub fn measure_operation(&mut self, operation_name: &str, now_ns: u64) -> (t: OperationTimer)
        ensures
            final(self).wf() == old(self).wf(),
            final(self).component_name == old(self).component_name,
            final(self).metrics.name == old(self).metrics.name,
            final(self).metrics.operations == old(self).metrics.operations,
            final(self).metrics.operation_count == (if old(self).metrics.operation_count
                < u64::MAX {
                old(self).metrics.operation_count + 1
            } else {
                u64::MAX as int
            }),
            t.operation_name@ == operation_name@,
            t.start_ns == now_ns,
    {
        self.metrics.operation_count = if self.metrics.operation_count < u64::MAX {
            self.metrics.operation_count + 1
        } else {
            self.metrics.operation_count
        };
        OperationTimer { operation_name: operation_name.to_owned(), start_ns: now_ns }
    }

    /// The aggregates, one per operation name measured so far.
    pub fn get_metrics(&self) -> (r: Vec<OperationMetrics>)
        ensures
            r@ == self.metrics.operations@,
    {
        let mut r: Vec<OperationMetrics> = Vec::new();
        let mut i: usize = 0;
        while i < self.metrics.operations.len()
            invariant
                0 <= i <= self.metrics.operations@.len(),
                r@ =~= self.metrics.operations@.subrange(0, i as int),
            decreases self.metrics.operations@.len() - i,
        {
            r.push(self.metrics.operations[i].clone());
            proof {
                assert(r@ =~= self.metrics.operations@.subrange(0, i + 1));
            }
            i = i + 1;
        }
        proof {
            assert(r@ =~= self.metrics.operations@);
        }
        r
    }

    /// How many measured operations started.
    pub fn get_operation_count(&self) -> (r: u64)
        ensures
            r == self.metrics.operation_count,
    {
        self.metrics.operation_count
    }

    /// Forgets everything measured so far.
    pub fn reset(&mut self)
        ensures
            final(self).wf(),
            final(self).component_name == old(self).component_name,
            final(self).metrics.name == old(self).metrics.name,
            final(self).metrics.operation_count == 0,
            final(self).metrics.operations@.len() == 0,
    {
        self.metrics.operation_count = 0;
        self.metrics.operations.clear();
    }
}

impl OperationTimer {
    /// Ends the measurement at instant `now_ns` and folds the elapsed
    /// time into the aggregate for the operation's name, creating it on
    /// its first run.
    #[verifier::loop_isolation(false)]
    pub fn record(self, metrics: &mut PerformanceMetrics, now_ns: u64)
        requires
            old(metrics).wf(),
        ensures
            final(metrics).wf(),
            final(metrics).component_name == old(metrics).component_name,
            final(metrics).metrics.name == old(metrics).metrics.name,
            final(metrics).metrics.operation_count == old(metrics).metrics.operation_count,
            (exists|j: int|
                0 <= j < old(metrics).metrics.operations@.len() && #[trigger] old(
                    metrics,
                ).metrics.operations@[j].name@ == self.operation_name@) ==> {
                &&& final(metrics).metrics.operations@.len() == old(
                    metrics,
                ).metrics.operations@.len()
                &&& (forall|l: int|
                    0 <= l < old(metrics).metrics.operations@.len()
                        && #[trigger] old(metrics).metrics.operations@[l].name@
                        != self.operation_name@ ==> final(metrics).metrics.operations@[l] == old(
                        metrics,
                    ).metrics.operations@[l])
                &&& (forall|l: int|
                    0 <= l < old(metrics).metrics.operations@.len()
                        && #[trigger] old(metrics).metrics.operations@[l].name@
                        == self.operation_name@ ==> folded_run(
                        old(metrics).metrics.operations@[l],
                        final(metrics).metrics.operations@[l],
                        spec_elapsed(self.start_ns, now_ns),
                    ))
            },
            !(exists|j: int|
                0 <= j < old(metrics).metrics.operations@.len() && #[trigger] old(
                    metrics,
                ).metrics.operations@[j].name@ == self.operation_name@) ==> {
                &&& final(metrics).metrics.operations@.len() == old(
                    metrics,
                ).metrics.operations@.len() + 1
                &&& final(metrics).metrics.operations@.last().name@ == self.operation_name@
                &&& final(metrics).metrics.operations@.last().call_count == 1
                &&& final(metrics).metrics.operations@.last().total_duration_ns == spec_elapsed(
                    self.start_ns,
                    now_ns,
                )
            },
    {
        let duration = if now_ns >= self.start_ns {
            now_ns - self.start_ns
        } else {
            0
        };
        let mut i: usize = 0;
        while i < metrics.metrics.operations.len()
            invariant
                0 <= i <= metrics.metrics.operations@.len(),
                metrics.metrics.operations@ == old(metrics).metrics.operations@,
                metrics.component_name == old(metrics).component_name,
                metrics.metrics.name == old(metrics).metrics.name,
                metrics.metrics.operation_count == old(metrics).metrics.operation_count,
                forall|j: int|
                    0 <= j < i ==> #[trigger] metrics.metrics.operations@[j].name@
                        != self.operation_name@,
            decreases metrics.metrics.operations@.len() - i,
        {
            if text::str_eq(metrics.metrics.operations[i].name.as_str(), self.operation_name.as_str()) {
                let mut op = metrics.metrics.operations.remove(i);
                op.update(duration);
                let ghost opn = op;
                metrics.metrics.operations.insert(i, op);
                proof {
                    assert(metrics.metrics.operations@ =~= old(metrics).metrics.operations@.update(
                        i as int,
                        opn,
                    ));
                    assert(forall|l: int|
                        0 <= l < old(metrics).metrics.operations@.len()
                            && #[trigger] old(metrics).metrics.operations@[l].name@
                            == self.operation_name@ ==> l == i);
                    assert(unique_operation_names(metrics.metrics.operations@)) by {
                        assert(metrics.metrics.operations@[i as int].name@ == old(
                            metrics,
                        ).metrics.operations@[i as int].name@);
                    }
                }
                return;
            }
            i = i + 1;
        }
        let mut op = OperationMetrics::new(self.operation_name.as_str());
        op.update(duration);
        metrics.metrics.operations.push(op);
        proof {
            assert(unique_operation_names(metrics.metrics.operations@)) by {
                assert(forall|a: int|
                    0 <= a < old(metrics).metrics.operations@.len()
                        ==> #[trigger] metrics.metrics.operations@[a] == old(
                        metrics,
                    ).metrics.operations@[a]);
            }
        }
    }
}

} // verus!
