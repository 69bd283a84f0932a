use vstd::prelude::*;
use std::collections::VecDeque;
use crate::common::RESPONSE_CAPACITY;
use crate::master::Master;
use crate::task::{Task, TaskState};
use crate::wireformat::{parse_rpc_opcode, Request, Response};

verus! {

/// Some response of the batch carries stamp `s`.
pub open spec fn answered(out: Seq<Response>, s: u64) -> bool {
    exists|j: int| 0 <= j < out.len() && (#[trigger] out[j]).stamp == s
}

/// Some pair awaiting transmit carries stamp `s` on its response.
pub open spec fn tx_answers(tx: Seq<(Request, Response)>, s: u64) -> bool {
    exists|j: int| 0 <= j < tx.len() && (#[trigger] tx[j]).1.stamp == s
}

/// Some queued task carries stamp `s`.
pub open spec fn queue_carries(q: Seq<Task>, s: u64) -> bool {
    exists|j: int| 0 <= j < q.len() && (#[trigger] q[j]).spec_stamp() == s
}

/// A single-threaded cooperative scheduler: one per worker core. Each
/// tick receives a batch of requests, dispatches them into tasks, runs
/// the ready queue under the tick's cycle budget, and transmits the
/// finished responses. A yielded task that has overrun its lifetime
/// budget leaves as a pushback response instead of being re-enqueued.
///
/// Tasks on this server never enter the waiting state — a native task
/// completes in one slice and an extension's operations are all
/// synchronous — so the waiting-set and its waking live with the
/// client, where a replayed task really does block on a response.
pub struct Scheduler {
    /// The service the tasks run against.
    master: Master,
    /// Tasks ready to run; first-in first-out within a priority band.
    ready: VecDeque<Task>,
    /// Finished (request, response) pairs awaiting transmit.
    tx: Vec<(Request, Response)>,
}

impl Scheduler {
    /// The service and every queued task are well formed, and every
    /// response awaiting transmit echoes its own request's stamp.
    pub closed spec fn wf(self) -> bool {
        &&& self.master.wf()
        &&& forall|i: int| 0 <= i < self.ready@.len() ==> (#[trigger] self.ready@[i]).wf()
        &&& forall|i: int| 0 <= i < self.tx@.len() ==> (#[trigger] self.tx@[i]).1.stamp
            == self.tx@[i].0.stamp && self.tx@[i].1.wf()
    }

    /// The service the tasks run against.
    pub closed spec fn spec_master(self) -> Master {
        self.master
    }

    /// The tasks on the ready queue.
    pub closed spec fn spec_ready(self) -> Seq<Task> {
        self.ready@
    }

    /// Builds a scheduler around a service.
    pub fn new(master: Master) -> (r: Scheduler)
        requires
            master.wf(),
        ensures
            r.wf(),
            r.spec_master() == master,
            r.spec_ready().len() == 0,
    {
        Scheduler { master, ready: VecDeque::new(), tx: Vec::new() }
    }

    /// The service, for inspection.
    pub fn master(&self) -> (r: &Master)
        ensures
            *r == self.spec_master(),
    {
        &self.master
    }

    /// One cooperative round: receive, execute, transmit.
    ///
    /// Every arrival is dispatched; a fault is queued for transmit at
    /// once and consumes no capacity, a task joins the ready queue.
    /// Then tasks run, each one slice at a time, until the tick budget
    /// or the queue is exhausted; a completed task's response is queued
    /// for transmit, a yielded task within its lifetime budget rejoins
    /// the queue at the tail, and a yielded task beyond it leaves as a
    /// pushback response. Finally the transmit queue drains into the
    /// returned batch; every response carries the stamp of the request
    /// it answers, and no request of the round is lost: its stamp comes
    /// back in the batch or stays on a queued task.
    pub fn tick(&mut self, incoming: Vec<Request>, tick_budget: u64) -> (out: Vec<Response>)
        requires
            old(self).wf(),
        ensures
            final(self).wf(),
            final(self).spec_master().exts() == old(self).spec_master().exts(),
            forall|i: int| 0 <= i < out@.len() ==> (#[trigger] out@[i]).wf(),
            forall|i: int| 0 <= i < incoming@.len() ==> answered(
                out@,
                (#[trigger] incoming@[i]).stamp,
            ) || queue_carries(final(self).spec_ready(), incoming@[i].stamp),
    {
        let ghost inc0 = incoming@;
        let mut incoming = incoming;
        let ghost mut done: int = 0;
        while incoming.len() > 0
            invariant
                self.wf(),
                self.master.exts() == old(self).spec_master().exts(),
                0 <= done,
                done + incoming@.len() == inc0.len(),
                incoming@ =~= inc0.skip(done),
                forall|i: int| 0 <= i < done ==> tx_answers(self.tx@, (#[trigger] inc0[i]).stamp)
                    || queue_carries(self.ready@, inc0[i].stamp),
            decreases incoming@.len(),
        {
            let ghost tx0 = self.tx@;
            let ghost ready0 = self.ready@;
            let req = incoming.remove(0);
            proof {
                assert(req == inc0[done]);
                assert(incoming@ =~= inc0.skip(done + 1));
            }
            let res = Response::new(req.opcode, req.stamp, RESPONSE_CAPACITY);
            let op = parse_rpc_opcode(req.opcode);
            match self.master.dispatch(op, req, res) {
                Ok(task) => {
                    self.ready.push_back(task);
                    proof {
                        assert(self.ready@[ready0.len() as int].spec_stamp() == inc0[done].stamp);
                        assert(queue_carries(self.ready@, inc0[done].stamp));
                    }
                },
                Err(fault) => {
                    self.tx.push(fault);
                    proof {
                        assert(self.tx@[tx0.len() as int].1.stamp == inc0[done].stamp);
                        assert(tx_answers(self.tx@, inc0[done].stamp));
                    }
                },
            }
            proof {
                assert forall|i: int| 0 <= i < done + 1 implies tx_answers(
                    self.tx@,
                    (#[trigger] inc0[i]).stamp,
                ) || queue_carries(self.ready@, inc0[i].stamp) by {
                    if i < done {
                        if tx_answers(tx0, inc0[i].stamp) {
                            let j = choose|j: int|
                                0 <= j < tx0.len() && (#[trigger] tx0[j]).1.stamp == inc0[i].stamp;
                            assert(self.tx@[j].1.stamp == inc0[i].stamp);
                        } else {
                            let j = choose|j: int|
                                0 <= j < ready0.len() && (#[trigger] ready0[j]).spec_stamp()
                                    == inc0[i].stamp;
                            assert(self.ready@[j].spec_stamp() == inc0[i].stamp);
                        }
                    }
                }
                done = done + 1;
            }
        }
        let mut spent: u64 = 0;
        while spent < tick_budget && self.ready.len() > 0
            invariant
                self.wf(),
                self.master.exts() == old(self).spec_master().exts(),
                forall|i: int| 0 <= i < inc0.len() ==> tx_answers(
                    self.tx@,
                    (#[trigger] inc0[i]).stamp,
                ) || queue_carries(self.ready@, inc0[i].stamp),
            decreases tick_budget - spent,
        {
            let ghost tx0 = self.tx@;
            let ghost ready0 = self.ready@;
            let remaining = tick_budget - spent;
            let task = self.ready.pop_front();
            match task {
                Some(mut task) => {
                    let ghost stamp0 = task.spec_stamp();
                    let (state, used) = task.run(&mut self.master);
                    let charged: u64 = if used == 0 {
                        1
                    } else {
                        used
                    };
                    let charged: u64 = if charged > remaining {
                        remaining
                    } else {
                        charged
                    };
                    spent = spent + charged;
                    match state {
                        TaskState::Completed => {
                            let pair = task.commit();
                            self.tx.push(pair);
                            proof {
                                assert(self.tx@[tx0.len() as int].1.stamp == stamp0);
                            }
                        },
                        TaskState::Yielded => {
                            if task.overrun() {
                                let pair = task.pushback();
                                self.tx.push(pair);
                                proof {
                                    assert(self.tx@[tx0.len() as int].1.stamp == stamp0);
                                }
                            } else {
                                self.ready.push_back(task);
                                proof {
                                    assert(self.ready@[self.ready@.len() - 1].spec_stamp()
                                        == stamp0);
                                }
                            }
                        },
                        _ => {
                            self.ready.push_back(task);
                            proof {
                                assert(self.ready@[self.ready@.len() - 1].spec_stamp() == stamp0);
                            }
                        },
                    }
                    proof {
                        assert forall|i: int| 0 <= i < inc0.len() implies tx_answers(
                            self.tx@,
                            (#[trigger] inc0[i]).stamp,
                        ) || queue_carries(self.ready@, inc0[i].stamp) by {
                            let s = inc0[i].stamp;
                            if tx_answers(tx0, s) {
                                let j = choose|j: int|
                                    0 <= j < tx0.len() && (#[trigger] tx0[j]).1.stamp == s;
                                assert(self.tx@[j].1.stamp == s);
                            } else if queue_carries(ready0, s) {
                                let j = choose|j: int|
                                    0 <= j < ready0.len() && (#[trigger] ready0[j]).spec_stamp()
                                        == s;
                                if j == 0 {
                                    // The popped task either left its
                                    // answer on the transmit queue or
                                    // rejoined the ready queue; its
                                    // stamp survived the slice.
                                    assert(stamp0 == s);
                                    assert(tx_answers(self.tx@, s) || queue_carries(
                                        self.ready@,
                                        s,
                                    ));
                                } else {
                                    assert(self.ready@[j - 1].spec_stamp() == s);
                                }
                            }
                        }
                    }
                },
                None => {
                    proof {
                        assert(false);
                    }
                },
            }
        }
        let mut out: Vec<Response> = Vec::new();
        while self.tx.len() > 0
            invariant
                self.wf(),
                self.master.exts() == old(self).spec_master().exts(),
                forall|i: int| 0 <= i < out@.len() ==> (#[trigger] out@[i]).wf(),
                forall|i: int| 0 <= i < inc0.len() ==> answered(out@, (#[trigger] inc0[i]).stamp)
                    || tx_answers(self.tx@, inc0[i].stamp) || queue_carries(
                    self.ready@,
                    inc0[i].stamp,
                ),
            decreases self.tx@.len(),
        {
            let ghost tx0 = self.tx@;
            let ghost out0 = out@;
            let (_req, res) = self.tx.remove(0);
            out.push(res);
            proof {
                assert forall|i: int| 0 <= i < inc0.len() implies answered(
                    out@,
                    (#[trigger] inc0[i]).stamp,
                ) || tx_answers(self.tx@, inc0[i].stamp) || queue_carries(
                    self.ready@,
                    inc0[i].stamp,
                ) by {
                    let s = inc0[i].stamp;
                    if answered(out0, s) {
                        let j = choose|j: int|
                            0 <= j < out0.len() && (#[trigger] out0[j]).stamp == s;
                        assert(out@[j].stamp == s);
                    } else if tx_answers(tx0, s) {
                        let j = choose|j: int|
                            0 <= j < tx0.len() && (#[trigger] tx0[j]).1.stamp == s;
                        if j == 0 {
                            assert(out@[out0.len() as int].stamp == s);
                        } else {
                            assert(self.tx@[j - 1].1.stamp == s);
                        }
                    }
                }
            }
        }
        out
    }
}

} // verus!
