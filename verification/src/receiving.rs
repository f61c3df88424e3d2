//! A receive, one exchange at a time: a pull, then an acknowledgement of
//! each message it handed over.
//!
//! Whoever holds the connection sends what [`Receiving::request`] forms and
//! gives the response to [`Receiving::take`], until the Streams are there.
//! What was acknowledged is never lost: a receive that ends early, in a
//! failing acknowledgement or by [`Receiving::break_off`], ends with it.

use crate::client::{self, Client, ClientView, Received, ReceivedView};
use crate::failure::{Arrived, ArrivedView, Failure, FailureView};
use crate::message::{Request, RequestView, Response, ResponseView};
use crate::model;
use crate::session::origin;
use vstd::prelude::*;

verus! {

/// A receive that is under way.
pub struct Receiving {
    client: Client,
    subscription: String,
    pulled: bool,
    pending: Vec<Received>,
    arrived: Vec<Arrived>,
}

/// [`Receiving`] in specifications.
#[verifier::ext_equal]
pub struct ReceivingView {
    pub client: ClientView,
    pub subscription: Seq<char>,
    /// Whether the pull was answered.
    pub pulled: bool,
    /// What was pulled and is not acknowledged yet, the first being
    /// acknowledged now.
    pub pending: Seq<ReceivedView>,
    /// What was acknowledged.
    pub arrived: Seq<ArrivedView>,
}

/// How far a receive has come.
pub enum Step {
    /// There is another request to send.
    More(Receiving),
    /// The Streams are there.
    Done(Vec<Arrived>),
}

/// [`Step`] in specifications.
pub enum StepView {
    More(ReceivingView),
    Done(Seq<ArrivedView>),
}

/// What Streams are in specifications.
pub open spec fn arrived_views(arrived: Seq<Arrived>) -> Seq<ArrivedView> {
    arrived.map_values(|stream: Arrived| stream@)
}

impl View for Receiving {
    type V = ReceivingView;

    closed spec fn view(&self) -> ReceivingView {
        ReceivingView {
            client: self.client@,
            subscription: self.subscription@,
            pulled: self.pulled,
            pending: client::received_views(self.pending@),
            arrived: arrived_views(self.arrived@),
        }
    }
}

impl View for Step {
    type V = StepView;

    open spec fn view(&self) -> StepView {
        match *self {
            Step::More(receiving) => StepView::More(receiving@),
            Step::Done(arrived) => StepView::Done(arrived_views(arrived@)),
        }
    }
}

/// The Stream that a message of `subscription` is.
pub open spec fn arrival(subscription: Seq<char>, message: ReceivedView) -> ArrivedView {
    ArrivedView { origin_uri: model::origin_of(subscription, message.id), bytes: message.data }
}

/// The Streams that messages of `subscription` are.
pub open spec fn arrivals(subscription: Seq<char>, messages: Seq<ReceivedView>) -> Seq<ArrivedView> {
    messages.map_values(|message: ReceivedView| arrival(subscription, message))
}

impl ReceivingView {
    /// There is something to acknowledge once the pull was answered.
    pub open spec fn sound(self) -> bool {
        if self.pulled {
            self.pending.len() > 0
        } else {
            self.pending.len() == 0 && self.arrived.len() == 0
        }
    }

    /// Whether `request` is the one to send now.
    pub open spec fn asks(self, request: RequestView) -> bool {
        if self.pulled {
            self.client.calls(
                request,
                self.subscription,
                "acknowledge"@,
                client::acknowledge_document(seq![self.pending[0].ack_id]),
            )
        } else {
            self.client.calls(request, self.subscription, "pull"@, client::pull_document())
        }
    }

    /// What comes of it where it ends in `failure`: the Streams that were
    /// acknowledged, and the failure where there are none.
    pub open spec fn breaks_off(self, failure: FailureView) -> Result<StepView, FailureView> {
        if self.arrived.len() == 0 {
            Err(failure)
        } else {
            Ok(StepView::Done(self.arrived))
        }
    }

    /// What comes of the response to it.
    pub open spec fn takes(self, response: ResponseView) -> Result<StepView, FailureView> {
        if self.pulled {
            match client::acknowledge_result(response) {
                Err(failure) => self.breaks_off(failure),
                Ok(_) => {
                    let arrived = self.arrived.push(arrival(self.subscription, self.pending[0]));
                    let pending = self.pending.drop_first();
                    if pending.len() == 0 {
                        Ok(StepView::Done(arrived))
                    } else {
                        Ok(StepView::More(ReceivingView { pending, arrived, ..self }))
                    }
                },
            }
        } else {
            match client::pull_result(response) {
                Err(failure) => Err(failure),
                Ok(messages) => if messages.len() == 0 {
                    Ok(StepView::Done(Seq::empty()))
                } else {
                    Ok(StepView::More(ReceivingView { pulled: true, pending: messages, ..self }))
                },
            }
        }
    }

    /// What comes of one response after the other: a failure, the Streams,
    /// or nothing yet.
    pub open spec fn runs(self, responses: Seq<ResponseView>) -> Result<StepView, FailureView>
        decreases responses.len(),
    {
        if responses.len() == 0 {
            Ok(StepView::More(self))
        } else {
            match self.takes(responses[0]) {
                Ok(StepView::More(next)) => next.runs(responses.drop_first()),
                other => other,
            }
        }
    }
}

impl Receiving {
    /// There is something to acknowledge once the pull was answered.
    pub open spec fn well_formed(self) -> bool {
        self@.sound()
    }

    /// Begin to receive from `subscription` through `client`.
    pub fn new(client: Client, subscription: String) -> (receiving: Self)
        ensures
            receiving.well_formed(),
            receiving@ == (ReceivingView {
                client: client@,
                subscription: subscription@,
                pulled: false,
                pending: Seq::empty(),
                arrived: Seq::empty(),
            }),
    {
        let receiving = Receiving {
            client,
            subscription,
            pulled: false,
            pending: Vec::new(),
            arrived: Vec::new(),
        };
        assert(receiving@.pending == Seq::<ReceivedView>::empty());
        assert(receiving@.arrived == Seq::<ArrivedView>::empty());
        receiving
    }

    /// The client that this receives through.
    pub fn client(&self) -> (client: &Client)
        ensures
            client@ == self@.client,
    {
        &self.client
    }

    /// The request to send now.
    pub fn request(&self) -> (request: Request)
        requires
            self.well_formed(),
        ensures
            self@.asks(request@),
    {
        if self.pulled {
            let mut ack_ids: Vec<String> = Vec::new();
            ack_ids.push(self.pending[0].ack_id.clone());
            assert(ack_ids@.map_values(|ack_id: String| ack_id@) == seq![self@.pending[0].ack_id]);
            self.client.acknowledge(self.subscription.as_str(), ack_ids.as_slice())
        } else {
            self.client.pull(self.subscription.as_str())
        }
    }

    /// End here for `failure`. What was acknowledged left the subscription,
    /// so it is handed out; what was not is there to be pulled again.
    ///
    /// # Errors
    /// Where nothing was acknowledged.
    pub fn break_off<E>(self, failure: E) -> (arrived: Result<Vec<Arrived>, E>)
        ensures
            match arrived {
                Ok(arrived) => self@.arrived.len() > 0 && arrived_views(arrived@) == self@.arrived,
                Err(why) => self@.arrived.len() == 0 && why == failure,
            },
    {
        if self.arrived.len() == 0 {
            Err(failure)
        } else {
            Ok(self.arrived)
        }
    }

    /// Take the response to it. An acknowledgement that fails ends the
    /// receive with the Streams that were acknowledged before it.
    ///
    /// # Errors
    /// Where the endpoint refused or answered with something else, and no
    /// Stream was acknowledged.
    pub fn take(self, response: Response) -> (step: Result<Step, Failure>)
        requires
            self.well_formed(),
        ensures
            match step {
                Ok(step) => {
                    &&& self@.takes(response@) matches Ok(stated)
                    &&& stated == step@
                    &&& step matches Step::More(next) ==> next.well_formed()
                },
                Err(failure) => client::fails(self@.takes(response@), failure),
            },
    {
        let ghost was = self@;
        let mut receiving = self;
        if receiving.pulled {
            match client::acknowledged(response) {
                Err(failure) => match receiving.break_off(failure) {
                    Ok(arrived) => Ok(Step::Done(arrived)),
                    Err(failure) => Err(failure),
                },
                Ok(_) => {
                    let message = receiving.pending.remove(0);
                    assert(message@ == was.pending[0]);
                    assert(client::received_views(receiving.pending@) == was.pending.drop_first());
                    let uri = origin(receiving.subscription.as_str(), message.id.as_str());
                    receiving.arrived.push(Arrived::new(uri, message.data));
                    assert(arrived_views(receiving.arrived@) == was.arrived.push(
                        arrival(was.subscription, was.pending[0]),
                    ));
                    if receiving.pending.len() == 0 {
                        Ok(Step::Done(receiving.arrived))
                    } else {
                        Ok(Step::More(receiving))
                    }
                },
            }
        } else {
            match client::pulled(response) {
                Err(failure) => Err(failure),
                Ok(messages) => {
                    if messages.len() == 0 {
                        let none: Vec<Arrived> = Vec::new();
                        assert(arrived_views(none@) == Seq::<ArrivedView>::empty());
                        Ok(Step::Done(none))
                    } else {
                        receiving.pulled = true;
                        receiving.pending = messages;
                        Ok(Step::More(receiving))
                    }
                },
            }
        }
    }
}

} // verus!
