//! The dispatch engine: it judges a request from the operator, splits a site
//! request over the online assets of the site, makes each accepted share the
//! setpoint of its asset, and sends it to the agent or parks it.

use vstd::prelude::*;
use crate::allocator::{
    all_wf, compute_site_allocations, spec_allocations, AllocationView, MAX_ASSETS,
};
use crate::headend::Headend;
use crate::ident::{parse_uuid, uuid_of_text};
use crate::idmap::increasing;
use crate::model::{Asset, BessState, Dispatch, DispatchRequest};
use crate::simulator::{accepted_dispatch, DispatchError};
use crate::streams::DeliveryError;

verus! {

/// A request from the operator: power for one asset or for one site.
#[derive(Debug)]
pub struct IncomingDispatch {
    pub asset_id: Option<String>,
    pub site_id: Option<String>,
    pub mw: i64,
    pub duration_s: Option<u64>,
}

/// What is wrong with the form of a request.
#[derive(Clone, Copy, Debug, PartialEq, Eq, Structural)]
pub enum BadRequest {
    /// Not exactly one of asset and site is given.
    NotExactlyOneTarget,
    /// The asset identifier is not a UUID.
    InvalidAssetId,
    /// The site identifier is not a UUID.
    InvalidSiteId,
}

/// Why a request was not carried out at all.
#[derive(Clone, Copy, Debug, PartialEq, Eq, Structural)]
pub enum SubmitError {
    /// The request is malformed.
    BadRequest(BadRequest),
    /// No asset of the site is online.
    NoOnlineAssets,
    /// The asset refused the dispatch.
    Refused(DispatchError),
}

/// What a well-formed request is aimed at.
#[derive(Clone, Copy, Debug, PartialEq, Eq, Structural)]
pub enum Target {
    Asset(u128),
    Site(u128),
}

/// An accepted dispatch and what became of its setpoint.
#[derive(Debug)]
pub struct Submitted {
    pub dispatch: Dispatch,
    pub delivery: Result<(), DeliveryError>,
}

/// The answer to a site request: the split, and per share the dispatch it
/// led to or the reason it was refused.
#[derive(Debug)]
pub struct SiteDispatchResult {
    pub allocations: Vec<AllocationView>,
    pub outcomes: Vec<Result<Submitted, DispatchError>>,
}

/// The answer to a request that was carried out.
#[derive(Debug)]
pub enum DispatchReply {
    Single(Submitted),
    Site(SiteDispatchResult),
}

/// White space: a character with the Unicode property `White_Space`.
pub open spec fn is_white_space(c: char) -> bool {
    let code = c as u32;
    ||| 0x09 <= code <= 0x0d
    ||| code == 0x20
    ||| code == 0x85
    ||| code == 0xa0
    ||| code == 0x1680
    ||| 0x2000 <= code <= 0x200a
    ||| code == 0x2028
    ||| code == 0x2029
    ||| code == 0x202f
    ||| code == 0x205f
    ||| code == 0x3000
}

/// A text without the white space at its start.
pub open spec fn trimmed_start(text: Seq<char>) -> Seq<char>
    decreases text.len(),
{
    if text.len() > 0 && is_white_space(text[0]) {
        trimmed_start(text.subrange(1, text.len() as int))
    } else {
        text
    }
}

/// A text without the white space at its end.
pub open spec fn trimmed_end(text: Seq<char>) -> Seq<char>
    decreases text.len(),
{
    if text.len() > 0 && is_white_space(text.last()) {
        trimmed_end(text.drop_last())
    } else {
        text
    }
}

/// A text without the white space at its ends.
pub open spec fn trimmed(text: Seq<char>) -> Seq<char> {
    trimmed_end(trimmed_start(text))
}

/// A text without the white space at its ends.
///
/// Calls `str::trim`, which returns the text with leading and trailing
/// white space removed, white space being the characters with the Unicode
/// property `White_Space`; the contract says that and no more.
#[verifier::external_body]
pub(crate) fn trim(text: &str) -> (inner: &str)
    ensures
        inner@ == trimmed(text@),
{
    text.trim()
}

/// A text of white space alone has nothing left once its ends are cut.
pub proof fn lemma_blank_trims_to_nothing(text: Seq<char>)
    requires
        forall|i: int| 0 <= i < text.len() ==> is_white_space(#[trigger] text[i]),
    ensures
        trimmed(text).len() == 0,
    decreases text.len(),
{
    if text.len() > 0 {
        let rest = text.subrange(1, text.len() as int);
        assert forall|i: int| 0 <= i < rest.len() implies is_white_space(#[trigger] rest[i]) by {
            assert(rest[i] == text[i + 1]);
        }
        lemma_blank_trims_to_nothing(rest);
    }
}

/// A target that is missing or made of white space alone is not given.
pub proof fn lemma_blank_is_not_given(field: Option<String>)
    requires
        field is Some ==> forall|i: int|
            0 <= i < field->0@.len() ==> is_white_space(#[trigger] field->0@[i]),
    ensures
        !is_given(field),
{
    if field is Some {
        lemma_blank_trims_to_nothing(field->0@);
    }
}

/// A target is given: there is a text and it is not blank.
pub open spec fn is_given(field: Option<String>) -> bool {
    field is Some && trimmed(field->0@).len() > 0
}

/// What a request is aimed at: exactly one of asset and site must be given,
/// and what is given must be a UUID.
pub open spec fn spec_target(req: &IncomingDispatch) -> Result<Target, BadRequest> {
    if is_given(req.asset_id) == is_given(req.site_id) {
        Err(BadRequest::NotExactlyOneTarget)
    } else if is_given(req.site_id) {
        match uuid_of_text(req.site_id->0@) {
            Some(id) => Ok(Target::Site(id)),
            None => Err(BadRequest::InvalidSiteId),
        }
    } else {
        match uuid_of_text(trimmed(req.asset_id->0@)) {
            Some(id) => Ok(Target::Asset(id)),
            None => Err(BadRequest::InvalidAssetId),
        }
    }
}

/// Whether a target is given.
fn given(field: &Option<String>) -> (yes: bool)
    ensures
        yes == is_given(*field),
{
    match field {
        Some(text) => !trim(text.as_str()).is_empty(),
        None => false,
    }
}

/// What a request is aimed at.
pub fn resolve_target(req: &IncomingDispatch) -> (target: Result<Target, BadRequest>)
    ensures
        target == spec_target(req),
{
    let asset_given: bool = given(&req.asset_id);
    let site_given: bool = given(&req.site_id);
    if asset_given == site_given {
        return Err(BadRequest::NotExactlyOneTarget);
    }
    if site_given {
        match &req.site_id {
            Some(text) => match parse_uuid(text.as_str()) {
                Some(id) => Ok(Target::Site(id)),
                None => Err(BadRequest::InvalidSiteId),
            },
            None => Err(BadRequest::NotExactlyOneTarget),
        }
    } else {
        match &req.asset_id {
            Some(text) => match parse_uuid(trim(text.as_str())) {
                Some(id) => Ok(Target::Asset(id)),
                None => Err(BadRequest::InvalidAssetId),
            },
            None => Err(BadRequest::NotExactlyOneTarget),
        }
    }
}

/// The state of charge that the latest telemetry of an asset reports.
pub open spec fn reported_soc(headend: &Headend, asset_id: u128) -> Option<i64> {
    if headend.latest@.contains_key(asset_id) {
        Some(headend.latest@[asset_id].soc_mwhr)
    } else {
        None
    }
}

/// The request that the simulator is given for an asset.
pub open spec fn request_for(
    headend: &Headend,
    asset_id: u128,
    mw: i64,
    duration_s: Option<u64>,
    clamped: bool,
) -> DispatchRequest {
    DispatchRequest {
        asset_id,
        mw,
        duration_s,
        site_id: if headend.sim.assets@.contains_key(asset_id) {
            Some(headend.sim.assets@[asset_id].site_id)
        } else {
            None
        },
        clamped,
    }
}

/// The reason the simulator refuses power `mw` for an asset, if it does.
/// The state of charge is the one the latest telemetry reports, or the
/// simulator's own where there is none.
pub open spec fn refusal(headend: &Headend, asset_id: u128, mw: i64) -> Option<DispatchError> {
    headend.sim.gate(
        request_for(headend, asset_id, mw, None, false),
        reported_soc(headend, asset_id),
    )
}

/// Judges power `mw` for an asset and, where it passes, makes it the
/// setpoint of the asset and records the dispatch.
pub fn accept_dispatch(
    headend: &mut Headend,
    asset_id: u128,
    mw: i64,
    duration_s: Option<u64>,
    clamped: bool,
) -> (outcome: Result<Dispatch, DispatchError>)
    requires
        old(headend).wf(),
    ensures
        final(headend).wf(),
        final(headend).latest == old(headend).latest,
        final(headend).registry == old(headend).registry,
        final(headend).soc_state == old(headend).soc_state,
        final(headend).sim.assets == old(headend).sim.assets,
        match outcome {
            Ok(dispatch) => {
                &&& refusal(old(headend), asset_id, mw) is None
                &&& dispatch == accepted_dispatch(
                    request_for(old(headend), asset_id, mw, duration_s, clamped),
                    dispatch.id,
                    dispatch.submitted_at,
                )
                &&& final(headend).sim.state@ == old(headend).sim.state@.insert(
                    asset_id,
                    BessState { setpoint_mw: mw, ..old(headend).sim.state@[asset_id] },
                )
                &&& final(headend).sim.dispatches@ == old(headend).sim.dispatches@.insert(
                    asset_id,
                    dispatch,
                )
            },
            Err(reason) => refusal(old(headend), asset_id, mw) == Some(reason) && *final(headend)
                == *old(headend),
        },
{
    let site_id: Option<u128> = match headend.sim.assets.get(asset_id) {
        Some(asset) => Some(asset.site_id),
        None => None,
    };
    let soc: Option<i64> = match headend.latest.get(asset_id) {
        Some(snap) => Some(snap.soc_mwhr),
        None => None,
    };
    let req = DispatchRequest { asset_id, mw, duration_s, site_id, clamped };
    headend.sim.set_dispatch(req, soc)
}

/// Sends the setpoint of `dispatch` to the agent of its asset, or parks the
/// dispatch where that cannot be done.
pub fn deliver_dispatch(headend: &mut Headend, dispatch: &Dispatch) -> (result: Result<
    (),
    DeliveryError,
>)
    requires
        old(headend).wf(),
    ensures
        final(headend).wf(),
        final(headend).sim == old(headend).sim,
        final(headend).latest == old(headend).latest,
        final(headend).soc_state == old(headend).soc_state,
        final(headend).registry.streams == old(headend).registry.streams,
        !old(headend).registry.streams@.contains_key(dispatch.asset_id) ==> result == Err::<
            (),
            DeliveryError,
        >(DeliveryError::AgentNotConnected),
        match result {
            Ok(()) => old(headend).registry.streams@.contains_key(dispatch.asset_id)
                && final(headend).registry.pending@ == old(headend).registry.pending@,
            Err(_) => final(headend).registry.pending@ == old(headend).registry.pending@.insert(
                dispatch.asset_id,
                *dispatch,
            ),
        },
{
    let site_id: Option<u128> = match headend.sim.assets.get(dispatch.asset_id) {
        Some(asset) => Some(asset.site_id),
        None => None,
    };
    headend.registry.send_or_park(dispatch.clone(), site_id)
}

/// Carries out a request for one asset: judges it, makes it the setpoint,
/// and sends the setpoint to the agent or parks the dispatch.
pub fn submit_to_asset(
    headend: &mut Headend,
    asset_id: u128,
    mw: i64,
    duration_s: Option<u64>,
    clamped: bool,
) -> (outcome: Result<Submitted, DispatchError>)
    requires
        old(headend).wf(),
    ensures
        final(headend).wf(),
        final(headend).latest == old(headend).latest,
        final(headend).soc_state == old(headend).soc_state,
        final(headend).sim.assets == old(headend).sim.assets,
        final(headend).registry.streams == old(headend).registry.streams,
        match outcome {
            Ok(done) => {
                &&& refusal(old(headend), asset_id, mw) is None
                &&& done.dispatch == accepted_dispatch(
                    request_for(old(headend), asset_id, mw, duration_s, clamped),
                    done.dispatch.id,
                    done.dispatch.submitted_at,
                )
                &&& final(headend).sim.state@ == old(headend).sim.state@.insert(
                    asset_id,
                    BessState { setpoint_mw: mw, ..old(headend).sim.state@[asset_id] },
                )
                &&& final(headend).sim.dispatches@ == old(headend).sim.dispatches@.insert(
                    asset_id,
                    done.dispatch,
                )
                &&& !old(headend).registry.streams@.contains_key(asset_id) ==> done.delivery
                    == Err::<(), DeliveryError>(DeliveryError::AgentNotConnected)
                &&& final(headend).registry.pending@ == if done.delivery is Ok {
                    old(headend).registry.pending@
                } else {
                    old(headend).registry.pending@.insert(asset_id, done.dispatch)
                }
            },
            Err(reason) => refusal(old(headend), asset_id, mw) == Some(reason) && *final(headend)
                == *old(headend),
        },
{
    match accept_dispatch(headend, asset_id, mw, duration_s, clamped) {
        Ok(dispatch) => {
            let delivery: Result<(), DeliveryError> = deliver_dispatch(headend, &dispatch);
            Ok(Submitted { dispatch, delivery })
        },
        Err(reason) => Err(reason),
    }
}

/// Carries out a request that names one asset.
pub fn handle_single_dispatch(
    headend: &mut Headend,
    req: &IncomingDispatch,
    clamped: bool,
) -> (outcome: Result<Submitted, SubmitError>)
    requires
        old(headend).wf(),
    ensures
        final(headend).wf(),
        final(headend).latest == old(headend).latest,
        final(headend).soc_state == old(headend).soc_state,
        final(headend).sim.assets == old(headend).sim.assets,
        final(headend).registry.streams == old(headend).registry.streams,
        match outcome {
            Ok(done) => {
                &&& is_given(req.asset_id)
                &&& uuid_of_text(trimmed(req.asset_id->0@)) is Some
                &&& ({
                    let asset_id = uuid_of_text(trimmed(req.asset_id->0@))->0;
                    &&& refusal(old(headend), asset_id, req.mw) is None
                    &&& done.dispatch == accepted_dispatch(
                        request_for(old(headend), asset_id, req.mw, req.duration_s, clamped),
                        done.dispatch.id,
                        done.dispatch.submitted_at,
                    )
                    &&& final(headend).sim.state@ == old(headend).sim.state@.insert(
                        asset_id,
                        BessState { setpoint_mw: req.mw, ..old(headend).sim.state@[asset_id] },
                    )
                    &&& final(headend).sim.dispatches@ == old(headend).sim.dispatches@.insert(
                        asset_id,
                        done.dispatch,
                    )
                    &&& !old(headend).registry.streams@.contains_key(asset_id) ==> done.delivery
                        == Err::<(), DeliveryError>(DeliveryError::AgentNotConnected)
                    &&& final(headend).registry.pending@ == if done.delivery is Ok {
                        old(headend).registry.pending@
                    } else {
                        old(headend).registry.pending@.insert(asset_id, done.dispatch)
                    }
                })
            },
            Err(error) => {
                &&& *final(headend) == *old(headend)
                &&& error == if !is_given(req.asset_id) {
                    SubmitError::BadRequest(BadRequest::NotExactlyOneTarget)
                } else {
                    match uuid_of_text(trimmed(req.asset_id->0@)) {
                        None => SubmitError::BadRequest(BadRequest::InvalidAssetId),
                        Some(asset_id) => SubmitError::Refused(
                            refusal(old(headend), asset_id, req.mw)->0,
                        ),
                    }
                }
                &&& is_given(req.asset_id) && uuid_of_text(trimmed(req.asset_id->0@)) is Some
                    ==> refusal(
                    old(headend),
                    uuid_of_text(trimmed(req.asset_id->0@))->0,
                    req.mw,
                ) is Some
            },
        },
{
    if !given(&req.asset_id) {
        return Err(SubmitError::BadRequest(BadRequest::NotExactlyOneTarget));
    }
    let asset_id: u128 = match &req.asset_id {
        Some(text) => match parse_uuid(trim(text.as_str())) {
            Some(id) => id,
            None => { return Err(SubmitError::BadRequest(BadRequest::InvalidAssetId)); },
        },
        None => { return Err(SubmitError::BadRequest(BadRequest::NotExactlyOneTarget)); },
    };
    match submit_to_asset(headend, asset_id, req.mw, req.duration_s, clamped) {
        Ok(done) => Ok(done),
        Err(reason) => Err(SubmitError::Refused(reason)),
    }
}

/// The assets of `site_id` among the first `n` streams: those whose stream
/// registered for the site and which the catalogue knows, in order of
/// identifier.
pub open spec fn online_upto(headend: &Headend, site_id: u128, n: nat) -> Seq<Asset>
    decreases n,
{
    if n == 0 {
        Seq::empty()
    } else {
        let before = online_upto(headend, site_id, (n - 1) as nat);
        let id = headend.registry.streams.ids()[n - 1];
        if headend.registry.streams.items()[n - 1].site_id == site_id
            && headend.sim.assets@.contains_key(id) {
            before.push(headend.sim.assets@[id])
        } else {
            before
        }
    }
}

/// The online assets of `site_id`, in order of identifier.
pub open spec fn online(headend: &Headend, site_id: u128) -> Seq<Asset> {
    online_upto(headend, site_id, headend.registry.streams.ids().len())
}

/// The identifiers of a list of assets.
pub open spec fn ids_of(assets: Seq<Asset>) -> Seq<u128> {
    Seq::new(assets.len(), |i: int| assets[i].id)
}

/// The online assets of a site are assets of the catalogue, each once, in
/// increasing order of identifier.
pub proof fn lemma_online(headend: &Headend, site_id: u128, n: nat)
    requires
        headend.wf(),
        n <= headend.registry.streams.ids().len(),
    ensures
        ({
            let list = online_upto(headend, site_id, n);
            &&& all_wf(list)
            &&& list.len() <= n
            &&& increasing(ids_of(list))
            &&& forall|i: int|
                0 <= i < list.len() ==> {
                    &&& headend.sim.assets@.contains_key(#[trigger] list[i].id)
                    &&& headend.sim.assets@[list[i].id] == list[i]
                    &&& headend.registry.streams@.contains_key(list[i].id)
                    &&& headend.registry.streams@[list[i].id].site_id == site_id
                }
            &&& forall|i: int|
                0 <= i < list.len() && n > 0 ==> (#[trigger] list[i]).id
                    <= headend.registry.streams.ids()[n - 1]
            &&& forall|k: int|
                0 <= k < n && headend.registry.streams.items()[k].site_id == site_id
                    && headend.sim.assets@.contains_key(headend.registry.streams.ids()[k])
                    ==> ids_of(list).contains(#[trigger] headend.registry.streams.ids()[k])
        }),
    decreases n,
{
    if n > 0 {
        lemma_online(headend, site_id, (n - 1) as nat);
        let before = online_upto(headend, site_id, (n - 1) as nat);
        let list = online_upto(headend, site_id, n);
        let ids = headend.registry.streams.ids();
        let id = ids[n - 1];
        headend.registry.streams.lemma_entry(n - 1);
        if n > 1 {
            assert(ids[n - 2] < ids[n - 1]);
        }
        if headend.registry.streams.items()[n - 1].site_id == site_id
            && headend.sim.assets@.contains_key(id) {
            assert(list == before.push(headend.sim.assets@[id]));
            assert(headend.sim.assets@[id].id == id);
            assert forall|a: int, b: int| 0 <= a < b < list.len() implies ids_of(list)[a] < ids_of(
                list,
            )[b] by {
                if b < before.len() {
                    assert(ids_of(before)[a] < ids_of(before)[b]);
                } else {
                    assert(before[a].id <= ids[n - 2]);
                }
            }
            assert forall|k: int|
                0 <= k < n && headend.registry.streams.items()[k].site_id == site_id
                    && headend.sim.assets@.contains_key(ids[k]) implies ids_of(list).contains(
                #[trigger] ids[k],
            ) by {
                if k < n - 1 {
                    assert(ids_of(before).contains(ids[k]));
                    let p = choose|p: int| 0 <= p < before.len() && ids_of(before)[p] == ids[k];
                    assert(ids_of(list)[p] == ids[k]);
                } else {
                    assert(ids_of(list)[list.len() - 1] == id);
                }
            }
        } else {
            assert(list == before);
        }
    }
}

/// The online assets of `site_id`, in order of identifier.
pub fn online_assets(headend: &Headend, site_id: u128) -> (list: Vec<Asset>)
    requires
        headend.wf(),
    ensures
        list@ == online(headend, site_id),
        all_wf(list@),
        list.len() <= MAX_ASSETS,
        increasing(ids_of(list@)),
{
    let mut list: Vec<Asset> = Vec::new();
    let n: usize = headend.registry.streams.len();
    let mut i: usize = 0;
    while i < n
        invariant
            headend.wf(),
            n == headend.registry.streams.ids().len(),
            i <= n,
            list@ == online_upto(headend, site_id, i as nat),
        decreases n - i,
    {
        let id: u128 = headend.registry.streams.id_at(i);
        if headend.registry.streams.item_at(i).site_id == site_id {
            match headend.sim.assets.get(id) {
                Some(asset) => {
                    list.push(asset.clone());
                },
                None => {},
            }
        }
        i += 1;
    }
    proof {
        lemma_online(headend, site_id, n as nat);
        let ids = ids_of(list@);
        assert forall|k: int| 0 <= k < ids.len() implies headend.sim.assets.ids().contains(
            #[trigger] ids[k],
        ) by {
            assert(headend.sim.assets@.contains_key(list@[k].id));
        }
        crate::idmap::lemma_no_longer(ids, headend.sim.assets.ids());
    }
    list
}

/// What became of share `i` of a site request, judged on the state before
/// the request: a dispatch of the share for its asset, or the reason the
/// asset refused it.
pub open spec fn is_share_outcome(
    before: &Headend,
    share: AllocationView,
    duration_s: Option<u64>,
    outcome: Result<Submitted, DispatchError>,
) -> bool {
    match outcome {
        Ok(done) => {
            &&& refusal(before, share.asset_id, share.mw) is None
            &&& done.dispatch == accepted_dispatch(
                request_for(before, share.asset_id, share.mw, duration_s, share.clamped),
                done.dispatch.id,
                done.dispatch.submitted_at,
            )
            &&& !before.registry.streams@.contains_key(share.asset_id) ==> done.delivery == Err::<
                (),
                DeliveryError,
            >(DeliveryError::AgentNotConnected)
        },
        Err(reason) => refusal(before, share.asset_id, share.mw) == Some(reason),
    }
}

/// The state of an asset after a site request: the share became its
/// setpoint if and only if the asset did not refuse it.
pub open spec fn state_after_share(before: &Headend, share: AllocationView) -> BessState {
    if refusal(before, share.asset_id, share.mw) is None {
        BessState { setpoint_mw: share.mw, ..before.sim.state@[share.asset_id] }
    } else {
        before.sim.state@[share.asset_id]
    }
}

/// The headend holds the same for `id` after as before: last dispatch and
/// parked dispatch.
pub open spec fn untouched_at(before: &Headend, after: &Headend, id: u128) -> bool {
    &&& after.sim.dispatches@.contains_key(id) == before.sim.dispatches@.contains_key(id)
    &&& after.sim.dispatches@[id] == before.sim.dispatches@[id]
    &&& after.registry.pending@.contains_key(id) == before.registry.pending@.contains_key(id)
    &&& after.registry.pending@[id] == before.registry.pending@[id]
}

/// What the headend holds for the asset of a share after a site request: a
/// dispatch that was accepted is the last dispatch of the asset, and is
/// parked unless its setpoint was delivered; a share that was refused leaves
/// everything as it was.
pub open spec fn share_settled(
    before: &Headend,
    after: &Headend,
    share: AllocationView,
    outcome: Result<Submitted, DispatchError>,
) -> bool {
    let id = share.asset_id;
    match outcome {
        Ok(done) => {
            &&& after.sim.dispatches@.contains_key(id)
            &&& after.sim.dispatches@[id] == done.dispatch
            &&& if done.delivery is Ok {
                &&& after.registry.pending@.contains_key(id)
                    == before.registry.pending@.contains_key(id)
                &&& after.registry.pending@[id] == before.registry.pending@[id]
            } else {
                &&& after.registry.pending@.contains_key(id)
                &&& after.registry.pending@[id] == done.dispatch
            }
        },
        Err(_) => untouched_at(before, after, id),
    }
}

/// One of the first `n` shares is for `id`.
pub open spec fn shares_name(shares: Seq<AllocationView>, n: int, id: u128) -> bool {
    exists|i: int| 0 <= i < n && #[trigger] shares[i].asset_id == id
}

/// Carries out a request for a site: splits the power over the online
/// assets of the site and carries out each share as a request for its asset.
/// A share that its asset refuses does not stop the others.
pub fn submit_to_site(
    headend: &mut Headend,
    site_id: u128,
    mw: i64,
    duration_s: Option<u64>,
) -> (outcome: Result<SiteDispatchResult, SubmitError>)
    requires
        old(headend).wf(),
    ensures
        final(headend).wf(),
        final(headend).latest == old(headend).latest,
        final(headend).soc_state == old(headend).soc_state,
        final(headend).sim.assets == old(headend).sim.assets,
        final(headend).registry.streams == old(headend).registry.streams,
        match outcome {
            Err(error) => error == SubmitError::NoOnlineAssets
                && online(old(headend), site_id).len()
                == 0 && *final(headend) == *old(headend),
            Ok(done) => {
                let shares = spec_allocations(online(old(headend), site_id), mw as int);
                &&& shares.len() > 0
                &&& done.allocations@ == shares
                &&& done.outcomes.len() == shares.len()
                &&& forall|i: int|
                    0 <= i < shares.len() ==> is_share_outcome(
                        old(headend),
                        shares[i],
                        duration_s,
                        #[trigger] done.outcomes[i],
                    )
                &&& forall|i: int|
                    0 <= i < shares.len() ==> final(headend).sim.state@[(
                    #[trigger] shares[i]).asset_id] == state_after_share(old(headend), shares[i])
                &&& forall|id: u128|
                    #![trigger final(headend).sim.state@[id]]
                    old(headend).sim.state@.contains_key(id) && !shares_name(
                        shares,
                        shares.len() as int,
                        id,
                    ) ==> final(headend).sim.state@[id] == old(headend).sim.state@[id]
                &&& forall|i: int|
                    0 <= i < shares.len() ==> share_settled(
                        old(headend),
                        final(headend),
                        shares[i],
                        #[trigger] done.outcomes[i],
                    )
                &&& forall|id: u128|
                    #![trigger untouched_at(old(headend), final(headend), id)]
                    !shares_name(shares, shares.len() as int, id) ==> untouched_at(
                        old(headend),
                        final(headend),
                        id,
                    )
            },
        },
{
    let assets: Vec<Asset> = online_assets(headend, site_id);
    if assets.len() == 0 {
        return Err(SubmitError::NoOnlineAssets);
    }
    let allocations: Vec<AllocationView> = compute_site_allocations(&assets, mw);
    let ghost shares = allocations@;
    let ghost start = *headend;
    proof {
        lemma_online(headend, site_id, headend.registry.streams.ids().len());
        assert forall|i: int| 0 <= i < shares.len() implies (#[trigger] shares[i]).asset_id
            == ids_of(assets@)[i] && start.sim.state@.contains_key(shares[i].asset_id) by {
            assert(start.sim.assets@.contains_key(assets@[i].id));
            assert(start.sim.state@.dom().contains(assets@[i].id));
        }
    }
    let mut outcomes: Vec<Result<Submitted, DispatchError>> = Vec::new();
    let mut i: usize = 0;
    while i < allocations.len()
        invariant
            start.wf(),
            start == *old(headend),
            headend.wf(),
            headend.latest == start.latest,
            headend.soc_state == start.soc_state,
            headend.sim.assets == start.sim.assets,
            headend.registry.streams == start.registry.streams,
            shares == allocations@,
            shares == spec_allocations(online(&start, site_id), mw as int),
            shares.len() == assets.len(),
            increasing(ids_of(assets@)),
            forall|k: int|
                0 <= k < shares.len() ==> (#[trigger] shares[k]).asset_id == ids_of(assets@)[k]
                    && start.sim.state@.contains_key(shares[k].asset_id),
            i <= allocations.len(),
            outcomes.len() == i,
            headend.sim.state@.dom() == start.sim.state@.dom(),
            forall|k: int|
                0 <= k < i
                    ==> is_share_outcome(&start, shares[k], duration_s, #[trigger] outcomes[k]),
            forall|k: int|
                0 <= k < i ==> headend.sim.state@[(#[trigger] shares[k]).asset_id]
                    == state_after_share(&start, shares[k]),
            forall|id: u128|
                #![trigger headend.sim.state@[id]]
                start.sim.state@.contains_key(id) && !shares_name(shares, i as int, id)
                    ==> headend.sim.state@[id] == start.sim.state@[id],
            forall|k: int|
                0 <= k < i ==> share_settled(&start, &*headend, shares[k], #[trigger] outcomes[k]),
            forall|id: u128|
                #![trigger untouched_at(&start, &*headend, id)]
                !shares_name(shares, i as int, id) ==> untouched_at(&start, &*headend, id),
        decreases allocations.len() - i,
    {
        let share: AllocationView = allocations[i];
        let ghost before = *headend;
        proof {
            assert(shares[i as int].asset_id == ids_of(assets@)[i as int]);
            assert forall|k: int| 0 <= k < i implies shares[k].asset_id != share.asset_id by {
                assert(ids_of(assets@)[k] < ids_of(assets@)[i as int]);
            }
            if start.sim.state@.contains_key(share.asset_id) {
                assert(before.sim.state@[share.asset_id] == start.sim.state@[share.asset_id]);
            }
            assert(refusal(&before, share.asset_id, share.mw) == refusal(
                &start,
                share.asset_id,
                share.mw,
            )) by {
                assert(before.sim.assets@.contains_key(share.asset_id)
                    ==> before.sim.state@.dom().contains(share.asset_id));
            }
        }
        let outcome: Result<Submitted, DispatchError> = submit_to_asset(
            headend,
            share.asset_id,
            share.mw,
            duration_s,
            share.clamped,
        );
        outcomes.push(outcome);
        proof {
            assert(headend.sim.state@.dom() =~= start.sim.state@.dom()) by {
                if outcome is Ok {
                    assert(before.sim.assets@.contains_key(share.asset_id));
                    assert(before.sim.state@.dom().contains(share.asset_id));
                }
            }
            assert forall|k: int| 0 <= k < i + 1 implies headend.sim.state@[(
            #[trigger] shares[k]).asset_id] == state_after_share(&start, shares[k]) by {
                if k < i {
                    assert(shares[k].asset_id != share.asset_id);
                }
            }
            assert forall|id: u128| shares_name(shares, i + 1, id) <==> (shares_name(
                shares,
                i as int,
                id,
            ) || id == share.asset_id) by {
                if shares_name(shares, i as int, id) {
                    let k = choose|k: int| 0 <= k < i && #[trigger] shares[k].asset_id == id;
                    assert(0 <= k < i + 1 && shares[k].asset_id == id);
                }
                if id == share.asset_id {
                    assert(shares[i as int].asset_id == id);
                }
                if shares_name(shares, i + 1, id) {
                    let k = choose|k: int| 0 <= k < i + 1 && #[trigger] shares[k].asset_id == id;
                    if k < i {
                        assert(shares[k].asset_id == id);
                    }
                }
            }
            assert(!shares_name(shares, i as int, share.asset_id)) by {
                if shares_name(shares, i as int, share.asset_id) {
                    let k = choose|k: int|
                        0 <= k < i && #[trigger] shares[k].asset_id == share.asset_id;
                    assert(shares[k].asset_id != share.asset_id);
                }
            }
            assert(untouched_at(&start, &before, share.asset_id));
            assert forall|id: u128|
                #![trigger headend.sim.state@[id]]
                start.sim.state@.contains_key(id) && !shares_name(
                    shares,
                    i + 1,
                    id,
                ) implies headend.sim.state@[id] == start.sim.state@[id] by {
                assert(before.sim.state@[id] == start.sim.state@[id]);
            }
            assert forall|k: int| 0 <= k < i + 1 implies share_settled(
                &start,
                &*headend,
                shares[k],
                #[trigger] outcomes[k],
            ) by {
                if k < i {
                    assert(shares[k].asset_id != share.asset_id);
                    assert(share_settled(&start, &before, shares[k], outcomes[k]));
                }
            }
            assert forall|id: u128|
                #![trigger untouched_at(&start, &*headend, id)]
                !shares_name(shares, i + 1, id) implies untouched_at(&start, &*headend, id) by {
                assert(untouched_at(&start, &before, id));
            }
        }
        i += 1;
    }
    Ok(SiteDispatchResult { allocations, outcomes })
}

/// Carries out a request from the operator.  Exactly one of asset and site
/// must be given; a site request needs an online asset at the site.
pub fn create_dispatch(headend: &mut Headend, req: &IncomingDispatch) -> (outcome: Result<
    DispatchReply,
    SubmitError,
>)
    requires
        old(headend).wf(),
    ensures
        final(headend).wf(),
        final(headend).latest == old(headend).latest,
        final(headend).soc_state == old(headend).soc_state,
        final(headend).sim.assets == old(headend).sim.assets,
        final(headend).registry.streams == old(headend).registry.streams,
        match spec_target(req) {
            Err(bad) => outcome == Err::<DispatchReply, SubmitError>(SubmitError::BadRequest(bad))
                && *final(headend) == *old(headend),
            Ok(Target::Asset(asset_id)) => match outcome {
                Ok(DispatchReply::Single(done)) => {
                    &&& refusal(old(headend), asset_id, req.mw) is None
                    &&& done.dispatch == accepted_dispatch(
                        request_for(old(headend), asset_id, req.mw, req.duration_s, false),
                        done.dispatch.id,
                        done.dispatch.submitted_at,
                    )
                    &&& final(headend).sim.state@ == old(headend).sim.state@.insert(
                        asset_id,
                        BessState { setpoint_mw: req.mw, ..old(headend).sim.state@[asset_id] },
                    )
                    &&& final(headend).sim.dispatches@ == old(headend).sim.dispatches@.insert(
                        asset_id,
                        done.dispatch,
                    )
                    &&& !old(headend).registry.streams@.contains_key(asset_id) ==> done.delivery
                        == Err::<(), DeliveryError>(DeliveryError::AgentNotConnected)
                    &&& final(headend).registry.pending@ == if done.delivery is Ok {
                        old(headend).registry.pending@
                    } else {
                        old(headend).registry.pending@.insert(asset_id, done.dispatch)
                    }
                },
                Ok(DispatchReply::Site(_)) => false,
                Err(error) => refusal(old(headend), asset_id, req.mw) is Some && error
                    == SubmitError::Refused(refusal(old(headend), asset_id, req.mw)->0)
                        && *final(headend) == *old(headend),
            },
            Ok(Target::Site(site_id)) => match outcome {
                Ok(DispatchReply::Site(done)) => {
                    let shares = spec_allocations(online(old(headend), site_id), req.mw as int);
                    &&& shares.len() > 0
                    &&& done.allocations@ == shares
                    &&& done.outcomes.len() == shares.len()
                    &&& forall|i: int|
                        0 <= i < shares.len() ==> is_share_outcome(
                            old(headend),
                            shares[i],
                            req.duration_s,
                            #[trigger] done.outcomes[i],
                        )
                    &&& forall|i: int|
                        0 <= i < shares.len() ==> final(headend).sim.state@[(
                        #[trigger] shares[i]).asset_id] == state_after_share(
                            old(headend),
                            shares[i],
                        )
                    &&& forall|id: u128|
                        #![trigger final(headend).sim.state@[id]]
                        old(headend).sim.state@.contains_key(id) && !shares_name(
                            shares,
                            shares.len() as int,
                            id,
                        ) ==> final(headend).sim.state@[id] == old(headend).sim.state@[id]
                    &&& forall|i: int|
                        0 <= i < shares.len() ==> share_settled(
                            old(headend),
                            final(headend),
                            shares[i],
                            #[trigger] done.outcomes[i],
                        )
                    &&& forall|id: u128|
                        #![trigger untouched_at(old(headend), final(headend), id)]
                        !shares_name(shares, shares.len() as int, id) ==> untouched_at(
                            old(headend),
                            final(headend),
                            id,
                        )
                },
                Ok(DispatchReply::Single(_)) => false,
                Err(error) => error == SubmitError::NoOnlineAssets && online(
                    old(headend),
                    site_id,
                ).len() == 0 && *final(headend) == *old(headend),
            },
        },
{
    match resolve_target(req) {
        Err(bad) => Err(SubmitError::BadRequest(bad)),
        Ok(Target::Asset(asset_id)) => {
            match submit_to_asset(headend, asset_id, req.mw, req.duration_s, false) {
                Ok(done) => Ok(DispatchReply::Single(done)),
                Err(reason) => Err(SubmitError::Refused(reason)),
            }
        },
        Ok(Target::Site(site_id)) => {
            match submit_to_site(headend, site_id, req.mw, req.duration_s) {
                Ok(done) => Ok(DispatchReply::Site(done)),
                Err(error) => Err(error),
            }
        },
    }
}

} // verus!
