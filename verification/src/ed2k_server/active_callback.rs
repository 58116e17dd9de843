//! A one-shot callback request: a short session with the server that reported
//! a peer which cannot be connected to.
use vstd::prelude::*;

use super::active_keyword::{
    accept_active_login, active_login, active_login_fits, ActiveProgress,
};
use super::packet_handler::{
    id_change, ContextView, ServerError, ServerSessionContext,
};
use super::session::{
    action_views, dispatch, dispatched, fresh_session, goes_out_at, in_phase,
    law_search_goes_out_after_the_wait, law_startup_does_not_wait, lemma_slept_sum, settle_wait,
    slept, ActionView, Ed2kPacket, ServerSession, ServerSessionPhase, SessionAction, SessionView,
};
use super::{OP_CALLBACKREQUEST, OP_CALLBACK_FAIL, OP_IDCHANGE, OP_REJECT};
use crate::addr::SocketAddrV4;
use crate::bytes::{push_u32, u32_le};

verus! {

/// Milliseconds for which a refusal is listened for after the request, at
/// most.
pub const CALLBACK_RESPONSE_TIMEOUT: u64 = 5_000;

/// A callback request on one server.
#[derive(Debug)]
pub struct ActiveCallback {
    pub session: ServerSession,
    pub client_id: u32,
    /// How long a packet is waited for.
    pub timeout: u64,
    /// Until when a refusal is listened for, once the request is out.
    pub response_deadline: Option<u64>,
}

/// What a callback request on one server holds.
pub struct ActiveCallbackView {
    pub session: SessionView,
    pub client_id: u32,
    pub timeout: u64,
    pub response_deadline: Option<u64>,
}

impl View for ActiveCallback {
    type V = ActiveCallbackView;

    open spec fn view(&self) -> ActiveCallbackView {
        ActiveCallbackView {
            session: self.session@,
            client_id: self.client_id,
            timeout: self.timeout,
            response_deadline: self.response_deadline,
        }
    }
}

/// How long a refusal is listened for.
pub open spec fn response_window(timeout: u64) -> u64 {
    if timeout < CALLBACK_RESPONSE_TIMEOUT {
        timeout
    } else {
        CALLBACK_RESPONSE_TIMEOUT
    }
}

/// What a packet comes to in a callback request: the request goes out once the
/// login is answered; after that only a refusal counts.
pub open spec fn callback_packet(
    v: ActiveCallbackView,
    opcode: u8,
    b: Seq<u8>,
    c: ContextView,
    now: u64,
) -> (ActiveCallbackView, Seq<ActionView>, ActiveProgress) {
    if v.response_deadline is Some {
        if opcode == OP_CALLBACK_FAIL {
            (v, Seq::empty(), ActiveProgress::Failed(ServerError::CallbackFailed))
        } else if opcode == OP_REJECT {
            (v, Seq::empty(), ActiveProgress::Failed(ServerError::Rejected))
        } else {
            (v, Seq::empty(), ActiveProgress::Going)
        }
    } else if opcode == OP_IDCHANGE {
        match active_login(v.session, b, c, now) {
            Err(e) => (v, Seq::empty(), ActiveProgress::Failed(e)),
            Ok((session, actions)) => {
                let d = dispatched(session, OP_CALLBACKREQUEST, u32_le(v.client_id), now);
                (
                    ActiveCallbackView {
                        session: d.0,
                        response_deadline: Some(
                            (goes_out_at(session, now) + response_window(v.timeout)) as u64,
                        ),
                        ..v
                    },
                    actions + d.1,
                    ActiveProgress::Going,
                )
            },
        }
    } else if opcode == OP_REJECT {
        (v, Seq::empty(), ActiveProgress::Failed(ServerError::Rejected))
    } else {
        (v, Seq::empty(), ActiveProgress::Going)
    }
}

/// Whether a packet took a request to `after`. Where it failed, nothing is said
/// of the request it leaves behind.
pub open spec fn callback_step_is(
    step: (ActiveCallbackView, Seq<ActionView>, ActiveProgress),
    after: ActiveCallbackView,
    actions: Seq<ActionView>,
    progress: ActiveProgress,
) -> bool {
    &&& progress == step.2
    &&& actions == step.1
    &&& progress is Failed || after == step.0
}

/// What to do before the next packet is read.
#[derive(Debug, Clone, Copy, PartialEq, Eq, Structural)]
pub enum CallbackWait {
    /// Read a packet, for so many milliseconds at the most.
    Read(u64),
    /// The request went through, as far as can be told.
    Done,
}

impl ActiveCallback {
    /// A request whose login was just sent.
    pub fn start(transport: SocketAddrV4, client_id: u32, timeout: u64, now: u64) -> (r: Self)
        ensures
            r@ == (ActiveCallbackView {
                session: in_phase(
                    fresh_session(transport, 0, now),
                    ServerSessionPhase::AwaitingIdChange,
                ),
                client_id,
                timeout,
                response_deadline: None,
            }),
    {
        let mut session = ServerSession::new(transport, 0, now);
        session.phase = ServerSessionPhase::AwaitingIdChange;
        ActiveCallback { session, client_id, timeout, response_deadline: None }
    }

    /// What to do before the next packet is read: without a refusal until the
    /// deadline, the request counts as gone through.
    pub fn before_read(&self, now: u64) -> (r: CallbackWait)
        ensures
            r == match self.response_deadline {
                None => CallbackWait::Read(self.timeout),
                Some(deadline) => if now >= deadline {
                    CallbackWait::Done
                } else {
                    CallbackWait::Read((deadline - now) as u64)
                },
            },
            r is Done <==> (self.response_deadline matches Some(deadline) && deadline <= now),
            r matches CallbackWait::Read(wait) ==> (match self.response_deadline {
                Some(deadline) => now + wait == deadline,
                None => wait == self.timeout,
            }),
    {
        match self.response_deadline {
            None => CallbackWait::Read(self.timeout),
            Some(deadline) => {
                if now >= deadline {
                    CallbackWait::Done
                } else {
                    CallbackWait::Read(deadline - now)
                }
            },
        }
    }

    /// A packet comes in.
    pub fn on_packet(
        &mut self,
        packet: &Ed2kPacket,
        context: &ServerSessionContext,
        now: u64,
    ) -> (r: (Vec<SessionAction>, ActiveProgress))
        requires
            old(self).response_deadline is None && packet.opcode == OP_IDCHANGE ==> {
                &&& active_login_fits(old(self)@.session, packet.payload@, context@)
                &&& active_login(old(self)@.session, packet.payload@, context@, now) matches Ok(
                    login,
                ) ==> now + settle_wait(login.0, now) + response_window(old(self).timeout)
                    <= u64::MAX
            },
        ensures
            callback_step_is(
                callback_packet(
                    old(self)@,
                    packet.opcode,
                    packet.payload@,
                    context@,
                    now,
                ),
                final(self)@,
                action_views(r.0@),
                r.1,
            ),
    {
        let mut actions: Vec<SessionAction> = Vec::new();
        assert(action_views(actions@) =~= Seq::empty());
        if self.response_deadline.is_some() {
            if packet.opcode == OP_CALLBACK_FAIL {
                return (actions, ActiveProgress::Failed(ServerError::CallbackFailed));
            }
            if packet.opcode == OP_REJECT {
                return (actions, ActiveProgress::Failed(ServerError::Rejected));
            }
            return (actions, ActiveProgress::Going);
        }
        if packet.opcode == OP_IDCHANGE {
            if let Some(e) = accept_active_login(
                &mut self.session,
                packet.payload.as_slice(),
                context,
                now,
                &mut actions,
            ) {
                return (actions, ActiveProgress::Failed(e));
            }
            let mut payload: Vec<u8> = Vec::new();
            push_u32(&mut payload, self.client_id);
            assert(payload@ =~= u32_le(self.client_id));
            let at: u64 = dispatch(
                &mut self.session,
                OP_CALLBACKREQUEST,
                payload,
                now,
                &mut actions,
            );
            let window: u64 = if self.timeout < CALLBACK_RESPONSE_TIMEOUT {
                self.timeout
            } else {
                CALLBACK_RESPONSE_TIMEOUT
            };
            self.response_deadline = Some(at + window);
            proof {
                let login = active_login(
                    old(self)@.session,
                    packet.payload@,
                    context@,
                    now,
                )->Ok_0;
                assert(Seq::<ActionView>::empty() + login.1 =~= login.1);
            }
            return (actions, ActiveProgress::Going);
        }
        if packet.opcode == OP_REJECT {
            return (actions, ActiveProgress::Failed(ServerError::Rejected));
        }
        (actions, ActiveProgress::Going)
    }

    /// The server closed the connection, which fails the request at any point.
    pub fn on_closed(&self) -> (r: ServerError)
        ensures
            r == ServerError::Closed,
    {
        ServerError::Closed
    }

    /// No packet came in time, which fails the request at any point.
    pub fn on_timeout(&self) -> (r: ServerError)
        ensures
            r == ServerError::TimedOut,
    {
        ServerError::TimedOut
    }
}

/// A refusal is waited for as long as the window is wide, from the moment at
/// which the request goes out.
pub proof fn law_refusal_has_its_full_window(
    v: ActiveCallbackView,
    b: Seq<u8>,
    c: ContextView,
    now: u64,
)
    requires
        v.response_deadline is None,
        active_login(v.session, b, c, now) matches Ok(login) && now + settle_wait(login.0, now)
            + response_window(v.timeout) <= u64::MAX,
    ensures
        ({
            let (after, actions, progress) = callback_packet(v, OP_IDCHANGE, b, c, now);
            after.response_deadline matches Some(deadline) && deadline == now + slept(actions)
                + response_window(v.timeout)
        }),
{
    let id = id_change(b)->Ok_0;
    let session = SessionView {
        server_flags: id.server_flags,
        assigned_client_id: Some(id.client_id),
        ..v.session
    };
    let login = active_login(v.session, b, c, now)->Ok_0;
    let d = dispatched(login.0, OP_CALLBACKREQUEST, u32_le(v.client_id), now);
    law_startup_does_not_wait(session, c.catalog, c.bind_ip, c.tcp_port, false, now);
    law_search_goes_out_after_the_wait(
        login.0,
        OP_CALLBACKREQUEST,
        u32_le(v.client_id),
        now,
    );
    lemma_slept_sum(login.1, d.1);
}

/// The request goes out once: after it, no packet makes anything go out.
pub proof fn law_callback_is_requested_once(
    v: ActiveCallbackView,
    opcode: u8,
    b: Seq<u8>,
    c: ContextView,
    now: u64,
)
    requires
        v.response_deadline is Some,
    ensures
        callback_packet(v, opcode, b, c, now).1.len() == 0,
        callback_packet(v, opcode, b, c, now).0 == v,
{
}

/// The request names the client to call by its id, under its own opcode, behind
/// whatever the login brings; a refusal is then listened for as long as packets
/// are waited for, five seconds at the most.
pub proof fn law_callback_request_names_the_client(
    v: ActiveCallbackView,
    b: Seq<u8>,
    c: ContextView,
    now: u64,
)
    requires
        v.response_deadline is None,
        active_login(v.session, b, c, now) is Ok,
    ensures
        ({
            let (after, actions, progress) = callback_packet(v, 0x40, b, c, now);
            &&& progress == ActiveProgress::Going
            &&& actions.len() > 0
            &&& actions.last() == ActionView::Send(0x1Cu8, u32_le(v.client_id))
            &&& after.response_deadline is Some
            &&& response_window(v.timeout) <= 5_000
            &&& v.timeout <= 5_000 ==> response_window(v.timeout) == v.timeout
            &&& v.timeout > 5_000 ==> response_window(v.timeout) == 5_000
        }),
{
}

/// A refusal fails the request once it is out; a rejection always does; other
/// packets do nothing.
pub proof fn law_callback_refusals(
    v: ActiveCallbackView,
    opcode: u8,
    b: Seq<u8>,
    c: ContextView,
    now: u64,
)
    requires
        v.response_deadline is Some || opcode != 0x40,
    ensures
        ({
            let (after, actions, progress) = callback_packet(v, opcode, b, c, now);
            &&& after == v
            &&& actions.len() == 0
            &&& opcode == 0x05 ==> progress == ActiveProgress::Failed(ServerError::Rejected)
            &&& opcode == 0x36 && v.response_deadline is Some ==> progress
                == ActiveProgress::Failed(ServerError::CallbackFailed)
            &&& opcode != 0x05 && (opcode != 0x36 || v.response_deadline is None) ==> progress
                == ActiveProgress::Going
        }),
{
}

} // verus!
