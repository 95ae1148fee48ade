//! Wireless pairing by QR code.
//!
//! A pairing runs in two steps around the work that only the caller can do.
//! `start_qr_pairing` takes the port of the listener that the caller has
//! bound, notes it and draws up the plan: the password and the service to
//! advertise. The caller registers that service and hands the handle of the
//! advertisement to `complete_qr_pairing`, which keeps it and returns what
//! the user is shown. `stop_qr_pairing` gives the handle back to be shut down.

use vstd::prelude::*;
use crate::decimal::{decimal, push_decimal};
use crate::qr::{encode, grid_result_view, qr_encoding, ModuleGrid};
use crate::svg::{svg_text, to_svg_string};
use crate::text::{push_text, string_of};
use rand::Rng;

verus! {

/// The margin around the QR code, in modules.
pub const QR_BORDER: i32 = 4;

/// The length of a pairing password.
pub const PASSWORD_LEN: usize = 6;

/// The pairing state of the application: the handle of the advertisement that
/// is registered, and the port of the listener that was bound last.
///
/// `D` is the type of the handle; the library keeps it and never looks into
/// it.
pub struct PairingState<D> {
    pub service_daemon: Option<D>,
    pub active_port: Option<u16>,
}

impl<D> PairingState<D> {
    /// The state in which nothing is advertised and no port is noted.
    pub open spec fn idle() -> Self {
        PairingState { service_daemon: None, active_port: None }
    }

    /// Whether nothing is advertised and no port is noted.
    pub open spec fn is_idle(self) -> bool {
        self.service_daemon is None && self.active_port is None
    }

    /// Whether a service is advertised and its port is noted.
    pub open spec fn is_pairing(self) -> bool {
        self.service_daemon is Some && self.active_port is Some
    }

    /// The state after a listener was bound to `port`.
    pub open spec fn bound(self, port: u16) -> Self {
        PairingState { service_daemon: self.service_daemon, active_port: Some(port) }
    }

    /// The state after the advertisement with the handle `daemon` was
    /// registered. A handle that was kept before is dropped, not shut down.
    pub open spec fn advertising(self, daemon: D) -> Self {
        PairingState { service_daemon: Some(daemon), active_port: self.active_port }
    }

    /// The state after pairing was stopped.
    pub open spec fn stopped(self) -> Self {
        Self::idle()
    }

    /// The idle state.
    pub fn new() -> (state: Self)
        ensures
            state == Self::idle(),
    {
        PairingState { service_daemon: None, active_port: None }
    }
}

/// Stopping is idempotent: a state that was stopped is idle, and stopping it
/// again, or stopping the idle state, leaves it idle.
pub proof fn law_stop_is_idempotent<D>(state: PairingState<D>)
    ensures
        state.stopped().is_idle(),
        state.stopped().active_port is None,
        state.stopped().stopped() == state.stopped(),
        PairingState::<D>::idle().stopped() == PairingState::<D>::idle(),
{
}

/// A pairing that was begun on a port and completed with a handle is under
/// way, whatever the state was before.
pub proof fn law_completed_pairing_is_under_way<D>(state: PairingState<D>, port: u16, daemon: D)
    ensures
        state.bound(port).advertising(daemon).is_pairing(),
        state.bound(port).advertising(daemon).active_port == Some(port),
        state.bound(port).advertising(daemon).service_daemon == Some(daemon),
{
}

/// Whether `c` is an ASCII letter or digit.
pub open spec fn is_alphanumeric(c: char) -> bool {
    ('A' <= c && c <= 'Z') || ('a' <= c && c <= 'z') || ('0' <= c && c <= '9')
}

/// Whether `s` can be a pairing password: six ASCII letters or digits.
pub open spec fn is_password(s: Seq<char>) -> bool {
    s.len() == PASSWORD_LEN && forall|i: int| 0 <= i < s.len() ==> is_alphanumeric(#[trigger] s[i])
}

/// The type of the service under which a pairing is advertised.
pub open spec fn service_type() -> Seq<char> {
    "_adb-tls-pairing._tcp.local."@
}

/// The name of the service instance with the number `suffix`.
pub open spec fn instance_name(suffix: u16) -> Seq<char> {
    "OrbitPairing-"@ + decimal(suffix as nat)
}

/// The host name under which the instance `name` is advertised.
pub open spec fn host_name(name: Seq<char>) -> Seq<char> {
    name + ".local."@
}

/// The text that the QR code holds for the instance `name` and `password`.
pub open spec fn qr_payload(name: Seq<char>, password: Seq<char>) -> Seq<char> {
    "WIFI:T:ADB;S:"@ + name + ";P:"@ + password + ";;"@
}

/// A service to advertise on the local network.
#[derive(Debug)]
pub struct Advertisement {
    pub service_type: String,
    pub instance_name: String,
    pub host_name: String,
    /// The address to advertise; the wildcard address.
    pub address: String,
    pub port: u16,
    /// The properties of the service, as pairs of key and value.
    pub properties: Vec<(String, String)>,
}

/// The text of an advertisement.
pub struct AdvertisementView {
    pub service_type: Seq<char>,
    pub instance_name: Seq<char>,
    pub host_name: Seq<char>,
    pub address: Seq<char>,
    pub port: u16,
    pub properties: Seq<(Seq<char>, Seq<char>)>,
}

impl View for Advertisement {
    type V = AdvertisementView;

    open spec fn view(&self) -> AdvertisementView {
        AdvertisementView {
            service_type: self.service_type@,
            instance_name: self.instance_name@,
            host_name: self.host_name@,
            address: self.address@,
            port: self.port,
            properties: self.properties@.map_values(|p: (String, String)| (p.0@, p.1@)),
        }
    }
}

/// The advertisement of the pairing service for the instance `name` on
/// `port`: protocol version 1, on the wildcard address.
pub open spec fn pairing_advertisement(name: Seq<char>, port: u16) -> AdvertisementView {
    AdvertisementView {
        service_type: service_type(),
        instance_name: name,
        host_name: host_name(name),
        address: "0.0.0.0"@,
        port: port,
        properties: seq![("v"@, "1"@)],
    }
}

/// What a pairing that has begun will advertise and show.
pub struct PairingPlan {
    port: u16,
    suffix: u16,
    password: String,
    name: String,
}

/// The text of a plan.
pub struct PairingPlanView {
    pub port: u16,
    pub suffix: u16,
    pub password: Seq<char>,
    pub name: Seq<char>,
}

impl View for PairingPlan {
    type V = PairingPlanView;

    closed spec fn view(&self) -> PairingPlanView {
        PairingPlanView {
            port: self.port,
            suffix: self.suffix,
            password: self.password@,
            name: self.name@,
        }
    }
}

/// Whether a plan is one that `start_qr_pairing` can draw up: its port is not
/// zero, its password is one, and its instance is named after its number.
pub open spec fn is_plan(plan: PairingPlanView) -> bool {
    plan.port > 0 && is_password(plan.password) && plan.name == instance_name(plan.suffix)
}

impl PairingPlan {
    #[verifier::type_invariant]
    spec fn well_formed(self) -> bool {
        is_plan(self@)
    }

    /// The port of the listener.
    pub fn port(&self) -> (port: u16)
        ensures
            port == self@.port,
            is_plan(self@),
    {
        proof {
            use_type_invariant(self);
        }
        self.port
    }

    /// The password that the device will present.
    pub fn password(&self) -> (password: &String)
        ensures
            password@ == self@.password,
    {
        &self.password
    }

    /// The name of the service instance.
    pub fn instance_name(&self) -> (name: &String)
        ensures
            name@ == self@.name,
    {
        &self.name
    }

    /// The service to advertise.
    pub fn advertisement(&self) -> (ad: Advertisement)
        ensures
            ad@ == pairing_advertisement(self@.name, self@.port),
    {
        let mut host: Vec<char> = Vec::new();
        push_text(&mut host, self.name.as_str());
        push_text(&mut host, ".local.");
        let mut properties: Vec<(String, String)> = Vec::new();
        properties.push(("v".to_string(), "1".to_string()));
        let ad = Advertisement {
            service_type: "_adb-tls-pairing._tcp.local.".to_string(),
            instance_name: self.name.clone(),
            host_name: string_of(host.as_slice()),
            address: "0.0.0.0".to_string(),
            port: self.port,
            properties,
        };
        assert(ad@.properties =~= seq![("v"@, "1"@)]);
        assert(ad@.host_name =~= host_name(self@.name));
        ad
    }
}

/// What the user is shown once a pairing is advertised.
#[derive(Debug)]
pub struct PairingResponse {
    /// The text that the QR code holds.
    pub qr_data: String,
    pub password: String,
    pub port: u16,
    pub service_name: String,
    /// The QR code as a vector image.
    pub qr_svg: String,
}

/// The text of a response.
pub struct PairingResponseView {
    pub qr_data: Seq<char>,
    pub password: Seq<char>,
    pub port: u16,
    pub service_name: Seq<char>,
    pub qr_svg: Seq<char>,
}

impl View for PairingResponse {
    type V = PairingResponseView;

    open spec fn view(&self) -> PairingResponseView {
        PairingResponseView {
            qr_data: self.qr_data@,
            password: self.password@,
            port: self.port,
            service_name: self.service_name@,
            qr_svg: self.qr_svg@,
        }
    }
}

/// The text of a response or a message.
pub open spec fn response_view(r: Result<PairingResponse, String>) -> Result<
    PairingResponseView,
    Seq<char>,
> {
    match r {
        Ok(response) => Ok(response@),
        Err(message) => Err(message@),
    }
}

/// The response to a plan for each result of encoding its payload: with the
/// image of the symbol where there is one, and the encoder's message where
/// there is none.
pub open spec fn pairing_answer(
    plan: PairingPlanView,
    encoded: Result<Seq<Seq<bool>>, Seq<char>>,
) -> Result<PairingResponseView, Seq<char>> {
    match encoded {
        Ok(grid) => Ok(
            PairingResponseView {
                qr_data: qr_payload(plan.name, plan.password),
                password: plan.password,
                port: plan.port,
                service_name: plan.name,
                qr_svg: svg_text(grid, QR_BORDER as int),
            },
        ),
        Err(message) => Err(message),
    }
}

/// Calls `rand::Rng::sample` on `rand::thread_rng()` with
/// `rand::distributions::Alphanumeric`.
///
/// Trusted: the sample is an ASCII letter or digit.
#[verifier::external_body]
fn random_alphanumeric() -> (c: char)
    ensures
        is_alphanumeric(c),
{
    rand::thread_rng().sample(rand::distributions::Alphanumeric) as char
}

/// Calls `rand::Rng::gen` on `rand::thread_rng()` for a `u16`. Nothing is
/// claimed of the number.
#[verifier::external_body]
fn random_u16() -> u16 {
    rand::thread_rng().gen::<u16>()
}

/// A fresh password of six random ASCII letters and digits.
pub fn generate_password() -> (password: String)
    ensures
        is_password(password@),
{
    let mut chars: Vec<char> = Vec::new();
    while chars.len() < PASSWORD_LEN
        invariant
            chars.len() <= PASSWORD_LEN,
            forall|i: int| 0 <= i < chars.len() ==> is_alphanumeric(#[trigger] chars@[i]),
        decreases PASSWORD_LEN - chars.len(),
    {
        chars.push(random_alphanumeric());
    }
    string_of(chars.as_slice())
}

/// The name of the service instance with the number `suffix`.
pub fn instance_name_for(suffix: u16) -> (name: String)
    ensures
        name@ == instance_name(suffix),
{
    let mut chars: Vec<char> = Vec::new();
    push_text(&mut chars, "OrbitPairing-");
    push_decimal(&mut chars, suffix as u64);
    string_of(chars.as_slice())
}

/// The text that the QR code holds for the instance `name` and `password`.
pub fn qr_payload_for(name: &str, password: &str) -> (payload: String)
    ensures
        payload@ == qr_payload(name@, password@),
{
    let mut chars: Vec<char> = Vec::new();
    push_text(&mut chars, "WIFI:T:ADB;S:");
    push_text(&mut chars, name);
    push_text(&mut chars, ";P:");
    push_text(&mut chars, password);
    push_text(&mut chars, ";;");
    string_of(chars.as_slice())
}

/// The plan for a pairing on `port` under the given password and instance
/// number.
pub fn plan_pairing(port: u16, password: String, suffix: u16) -> (plan: PairingPlan)
    requires
        port > 0,
        is_password(password@),
    ensures
        plan@ == (PairingPlanView {
            port: port,
            suffix: suffix,
            password: password@,
            name: instance_name(suffix),
        }),
{
    let name = instance_name_for(suffix);
    PairingPlan { port, suffix, password, name }
}

/// Begins a pairing on the listener bound to `port`: notes the port and draws
/// up the plan, with a fresh password and a fresh instance name.
pub fn start_qr_pairing<D>(state: &mut PairingState<D>, port: u16) -> (plan: PairingPlan)
    requires
        port > 0,
    ensures
        *final(state) == old(state).bound(port),
        is_plan(plan@),
        plan@.port == port,
{
    state.active_port = Some(port);
    let password = generate_password();
    let suffix = random_u16();
    plan_pairing(port, password, suffix)
}

/// The response to `plan` for a result of encoding its payload.
pub fn pairing_response(plan: PairingPlan, encoded: Result<ModuleGrid, String>) -> (r: Result<
    PairingResponse,
    String,
>)
    ensures
        response_view(r) == pairing_answer(plan@, grid_result_view(encoded)),
        r matches Ok(response) ==> is_password(response@.password) && response@.port > 0,
{
    proof {
        use_type_invariant(&plan);
    }
    match encoded {
        Ok(grid) => {
            let qr_data = qr_payload_for(plan.name.as_str(), plan.password.as_str());
            let qr_svg = to_svg_string(&grid, QR_BORDER);
            Ok(
                PairingResponse {
                    qr_data,
                    password: plan.password,
                    port: plan.port,
                    service_name: plan.name,
                    qr_svg,
                },
            )
        },
        Err(message) => Err(message),
    }
}

/// Completes a pairing whose service is registered: keeps the handle of the
/// advertisement, encodes the payload and draws the QR code.
///
/// The handle is kept whether or not the payload can be encoded, and a handle
/// kept before is dropped without being shut down.
pub fn complete_qr_pairing<D>(state: &mut PairingState<D>, daemon: D, plan: PairingPlan) -> (r:
    Result<PairingResponse, String>)
    ensures
        *final(state) == old(state).advertising(daemon),
        response_view(r) == pairing_answer(
            plan@,
            qr_encoding(qr_payload(plan@.name, plan@.password)),
        ),
        r matches Ok(response) ==> is_password(response@.password) && response@.port > 0,
{
    state.service_daemon = Some(daemon);
    let payload = qr_payload_for(plan.name.as_str(), plan.password.as_str());
    let encoded = encode(payload.as_str());
    pairing_response(plan, encoded)
}

/// Stops pairing: forgets the port and hands back the handle of the
/// advertisement, if one is kept, for the caller to shut down. It never fails.
pub fn stop_qr_pairing<D>(state: &mut PairingState<D>) -> (r: Result<Option<D>, String>)
    ensures
        *final(state) == old(state).stopped(),
        r == Ok::<Option<D>, String>(old(state).service_daemon),
{
    let daemon = state.service_daemon.take();
    state.active_port = None;
    Ok(daemon)
}

} // verus!
