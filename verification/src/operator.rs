//! Training through an operator's HTTP interface: what is sent, and what is made of
//! each answer.
//!
//! The requests are made by the program around this library.
use crate::binary64::{bits_tell_what_is_a_number, Binary64};
use crate::json::{
    field_views, object_text, render_object, JsonField, JsonFieldView, JsonValue, JsonView,
};
use crate::text::{decimal, strip_trailing, to_decimal, without_trailing};
use crate::traits::EngineError;
use crate::training::{
    TrainedArtifact, TrainingCluster, TrainingRecipe, DEFAULT_DATASET, DEFAULT_MODEL,
};
use std::collections::hash_map::DefaultHasher;
use std::hash::{BuildHasher, BuildHasherDefault};
use vstd::prelude::*;

verus! {

/// The task that a cluster is configured to run; a recipe sets the rest.
#[derive(Debug, PartialEq, Eq)]
pub struct BlueprintTaskConfig {
    pub base_model: String,
    pub dataset_url: String,
    /// The training method of the operator's backend.
    pub method: String,
    pub total_epochs: u32,
}

impl Clone for BlueprintTaskConfig {
    fn clone(&self) -> (r: Self)
        ensures
            r == *self,
    {
        BlueprintTaskConfig {
            base_model: self.base_model.clone(),
            dataset_url: self.dataset_url.clone(),
            method: self.method.clone(),
            total_epochs: self.total_epochs,
        }
    }
}

impl BlueprintTaskConfig {
    /// The task is the default one.
    pub open spec fn public_task(self) -> bool {
        &&& self.base_model@ == DEFAULT_MODEL@
        &&& self.dataset_url@ == DEFAULT_DATASET@
        &&& self.method@ == "lora"@
        &&& self.total_epochs == 1
    }

    /// A small public fine-tuning task.
    pub fn default_public() -> (r: Self)
        ensures
            r.public_task(),
    {
        BlueprintTaskConfig {
            base_model: DEFAULT_MODEL.to_owned(),
            dataset_url: DEFAULT_DATASET.to_owned(),
            method: "lora".to_owned(),
            total_epochs: 1,
        }
    }
}

/// How an operator is reached.
#[derive(Debug, PartialEq, Eq)]
pub struct BlueprintOperatorConfig {
    /// The operator's base address.
    pub endpoint: String,
    /// The token that requests carry, if the operator asks for one.
    pub auth_token: Option<String>,
    pub task: BlueprintTaskConfig,
    /// How long to wait between two questions for the status.
    pub poll_interval_ms: u64,
    /// How long to wait for completion.
    pub timeout_secs: u64,
}

impl Clone for BlueprintOperatorConfig {
    fn clone(&self) -> (r: Self)
        ensures
            r == *self,
    {
        BlueprintOperatorConfig {
            endpoint: self.endpoint.clone(),
            auth_token: match &self.auth_token {
                Some(t) => Some(t.clone()),
                None => None,
            },
            task: self.task.clone(),
            poll_interval_ms: self.poll_interval_ms,
            timeout_secs: self.timeout_secs,
        }
    }
}

/// How long to wait between two questions unless told otherwise.
pub fn default_poll_interval_ms() -> (r: u64)
    ensures
        r == 5000,
{
    5000
}

/// How long to wait for completion unless told otherwise.
pub fn default_timeout_secs() -> (r: u64)
    ensures
        r == 3600,
{
    3600
}

impl BlueprintOperatorConfig {
    /// A local operator with the default task.
    pub fn local() -> (r: Self)
        ensures
            r.endpoint@ == "http://localhost:5000"@,
            r.auth_token is None,
            r.task.public_task(),
            r.poll_interval_ms == 5000,
            r.timeout_secs == 3600,
    {
        BlueprintOperatorConfig {
            endpoint: "http://localhost:5000".to_owned(),
            auth_token: None,
            task: BlueprintTaskConfig::default_public(),
            poll_interval_ms: default_poll_interval_ms(),
            timeout_secs: default_timeout_secs(),
        }
    }
}

/// The hash that std's default hasher, with its fixed initial state, gives to these
/// numbers one after the other.
pub uninterp spec fn hash_of_words(
    islands: u32,
    inner_steps: u32,
    inner_lr: u64,
    outer_lr: u64,
    keep_fraction: u64,
    seed: u64,
) -> u64;

/// Calls `std::hash::BuildHasher::hash_one` with `DefaultHasher` in its fixed initial
/// state. Trusted: the hash is a function of the numbers alone, as std documents that all
/// hashers made by `DefaultHasher::default` are the same. Which function it is, std leaves
/// to its releases, so nothing more is said of it.
#[verifier::external_body]
fn hash_words(words: (u32, u32, u64, u64, u64, u64)) -> (r: u64)
    ensures
        r == hash_of_words(words.0, words.1, words.2, words.3, words.4, words.5),
{
    BuildHasherDefault::<DefaultHasher>::default().hash_one(words)
}

/// The id of a recipe's job.
pub open spec fn job_id(recipe: TrainingRecipe, seed: u64) -> u64 {
    hash_of_words(
        recipe.islands,
        recipe.inner_steps,
        recipe.inner_lr.bits,
        recipe.outer_lr.bits,
        recipe.keep_fraction.bits,
        seed,
    )
}

/// The id of a recipe's job: the same recipe and seed always have the same, so that
/// repeated runs are one job at the operator.
pub fn derive_job_id(recipe: &TrainingRecipe, seed: u64) -> (r: u64)
    ensures
        r == job_id(*recipe, seed),
{
    hash_words(
        (
            recipe.islands,
            recipe.inner_steps,
            recipe.inner_lr.bits,
            recipe.outer_lr.bits,
            recipe.keep_fraction.bits,
            seed,
        ),
    )
}

/// The fields of a request to create a job.
pub open spec fn job_fields(job_id: u64, task: BlueprintTaskConfig, inner_steps: u32) -> Seq<
    JsonFieldView,
> {
    seq![
        JsonFieldView { key: "job_id"@, value: JsonView::Number(job_id) },
        JsonFieldView { key: "base_model"@, value: JsonView::Text(task.base_model@) },
        JsonFieldView { key: "dataset_url"@, value: JsonView::Text(task.dataset_url@) },
        JsonFieldView { key: "method"@, value: JsonView::Text(task.method@) },
        JsonFieldView {
            key: "total_epochs"@,
            value: JsonView::Number(task.total_epochs as u64),
        },
        JsonFieldView {
            key: "sync_interval_steps"@,
            value: JsonView::Number(inner_steps as u64),
        },
    ]
}

fn field(key: &str, value: JsonValue) -> (f: JsonField)
    ensures
        f@ == (JsonFieldView { key: key@, value: value@ }),
{
    JsonField { key: key.to_owned(), value }
}

/// How the attempt to create a job went.
#[derive(Debug)]
pub enum CreateReply {
    /// Operators are not enabled.
    Disabled,
    /// The client could not be built.
    NoClient(String),
    /// The token cannot stand in a header.
    BadToken(String),
    /// The request could not be made.
    RequestFailed(String),
    /// The operator answered with an error, with this text if it could be read.
    Refused(Option<String>),
    /// The operator took the job.
    Accepted,
}

/// What is said for an answer that could not be read.
pub const UNREADABLE: &'static str = "<unreadable response>";

/// The text of an answer.
pub open spec fn answer_text(text: Option<String>) -> Seq<char> {
    match text {
        Some(t) => t@,
        None => UNREADABLE@,
    }
}

fn answered(prefix: &str, text: Option<String>) -> (r: EngineError)
    ensures
        r matches EngineError::Backend(m) && m@ == prefix@ + answer_text(text),
{
    let said = match text {
        Some(t) => t,
        None => UNREADABLE.to_owned(),
    };
    EngineError::Backend(prefix.to_owned().concat(said.as_str()))
}

/// Why a job was not created, if it was not.
pub open spec fn create_fault(reply: CreateReply) -> Option<Seq<char>> {
    match reply {
        CreateReply::Disabled => Some(
            "operator-backend feature not enabled: needs a running training-blueprint operator"@,
        ),
        CreateReply::NoClient(e) => Some("failed to build HTTP client: "@ + e@),
        CreateReply::BadToken(e) => Some("invalid auth token: "@ + e@),
        CreateReply::RequestFailed(e) => Some("operator create-job request failed: "@ + e@),
        CreateReply::Refused(text) => Some(
            "operator create-job returned error: "@ + answer_text(text),
        ),
        CreateReply::Accepted => None,
    }
}

/// What can be learnt while waiting for a job.
#[derive(Debug)]
pub enum PollEvent {
    /// The deadline has passed.
    DeadlinePassed,
    /// The question could not be asked.
    RequestFailed(String),
    /// The operator answered with an error, with this text if it could be read.
    Refused(Option<String>),
    /// The answer could not be read.
    Malformed(String),
    /// The operator's word on the job; the loss is read only once it is completed.
    Status { completed: bool, current_loss: Binary64 },
}

/// What to do next while waiting for a job.
#[derive(Debug)]
pub enum PollAction {
    /// Ask again after this many milliseconds.
    Wait { millis: u64 },
    /// The job is done.
    Finish(Result<TrainedArtifact, EngineError>),
}

/// What an event comes to.
pub enum PollDecision {
    Wait,
    Fail(Seq<char>),
    Trained(Binary64),
}

/// What an event while waiting for job `id` comes to: an error ends the wait, an
/// unfinished job prolongs it, and a finished one needs a finite loss.
pub open spec fn decided(id: u64, timeout_secs: u64, event: PollEvent) -> PollDecision {
    match event {
        PollEvent::DeadlinePassed => PollDecision::Fail(
            "operator job "@ + decimal(id as nat) + " did not complete within "@ + decimal(
                timeout_secs as nat,
            ) + " seconds"@,
        ),
        PollEvent::RequestFailed(e) => PollDecision::Fail(
            "operator status request failed: "@ + e@,
        ),
        PollEvent::Refused(text) => PollDecision::Fail(
            "operator status returned error: "@ + answer_text(text),
        ),
        PollEvent::Malformed(e) => PollDecision::Fail(
            "operator status was not valid JSON: "@ + e@,
        ),
        PollEvent::Status { completed, current_loss } => if !completed {
            PollDecision::Wait
        } else if current_loss.finite() {
            PollDecision::Trained(current_loss)
        } else {
            PollDecision::Fail("operator reported a non-finite current_loss"@)
        },
    }
}

/// A cluster behind an operator's HTTP interface.
#[derive(Debug)]
pub struct BlueprintOperatorCluster {
    pub config: BlueprintOperatorConfig,
    /// Whether the operator runs in an enclave.
    pub tee: bool,
}

impl Clone for BlueprintOperatorCluster {
    fn clone(&self) -> (r: Self)
        ensures
            r == *self,
    {
        BlueprintOperatorCluster { config: self.config.clone(), tee: self.tee }
    }
}

impl BlueprintOperatorCluster {
    /// A cluster behind the operator that `config` describes.
    pub fn new(config: BlueprintOperatorConfig) -> (r: Self)
        ensures
            r == (BlueprintOperatorCluster { config, tee: false }),
    {
        BlueprintOperatorCluster { config, tee: false }
    }

    /// The cluster with its operator in an enclave.
    pub fn with_tee(self) -> (r: Self)
        ensures
            r == (BlueprintOperatorCluster { tee: true, ..self }),
    {
        let mut this = self;
        this.tee = true;
        this
    }

    /// Where jobs are created.
    pub open spec fn jobs_url(self) -> Seq<char> {
        without_trailing(self.config.endpoint@, '/') + "/v1/training/jobs"@
    }

    /// How long a request may take, in seconds: the timeout, but no less than ten.
    pub fn request_timeout_secs(&self) -> (r: u64)
        ensures
            r == (if self.config.timeout_secs < 10 {
                10
            } else {
                self.config.timeout_secs
            }),
    {
        if self.config.timeout_secs < 10 {
            10
        } else {
            self.config.timeout_secs
        }
    }

    /// The authorization header of a request, if it has one.
    pub fn authorization(&self) -> (r: Option<String>)
        ensures
            match self.config.auth_token {
                Some(token) => r matches Some(h) && h@ == "Bearer "@ + token@,
                None => r is None,
            },
    {
        match &self.config.auth_token {
            Some(token) => Some("Bearer ".to_owned().concat(token.as_str())),
            None => None,
        }
    }

    /// Where jobs are created.
    pub fn create_url(&self) -> (r: String)
        ensures
            r@ == self.jobs_url(),
    {
        strip_trailing(self.config.endpoint.as_str(), '/').to_owned().concat("/v1/training/jobs")
    }

    /// Where the status of a recipe's job is asked for.
    pub fn status_url(&self, recipe: &TrainingRecipe, seed: u64) -> (r: String)
        ensures
            r@ == self.jobs_url() + "/"@ + decimal(job_id(*recipe, seed) as nat),
    {
        let mut url = self.create_url();
        url.append("/");
        url.append(to_decimal(derive_job_id(recipe, seed)).as_str());
        url
    }

    /// The body of a request to create a recipe's job.
    pub fn create_body(&self, recipe: &TrainingRecipe, seed: u64) -> (r: String)
        ensures
            r@ == object_text(
                job_fields(job_id(*recipe, seed), self.config.task, recipe.inner_steps),
            ),
    {
        let task = &self.config.task;
        let id: u64 = derive_job_id(recipe, seed);
        let mut fields: Vec<JsonField> = Vec::new();
        fields.push(field("job_id", JsonValue::Number(id)));
        fields.push(field("base_model", JsonValue::Text(task.base_model.clone())));
        fields.push(field("dataset_url", JsonValue::Text(task.dataset_url.clone())));
        fields.push(field("method", JsonValue::Text(task.method.clone())));
        fields.push(field("total_epochs", JsonValue::Number(task.total_epochs as u64)));
        fields.push(field("sync_interval_steps", JsonValue::Number(recipe.inner_steps as u64)));
        proof {
            assert(field_views(fields@) =~= job_fields(id, *task, recipe.inner_steps));
        }
        render_object(&fields)
    }

    /// Whether a job was created, or why not.
    pub fn created(&self, reply: CreateReply) -> (r: Result<(), EngineError>)
        ensures
            match create_fault(reply) {
                None => r is Ok,
                Some(why) => r matches Err(EngineError::Backend(m)) && m@ == why,
            },
    {
        match reply {
            CreateReply::Accepted => Ok(()),
            CreateReply::Disabled => Err(
                EngineError::Backend(
                    "operator-backend feature not enabled: needs a running training-blueprint operator".to_owned(),
                ),
            ),
            CreateReply::NoClient(e) => Err(
                EngineError::Backend("failed to build HTTP client: ".to_owned().concat(e.as_str())),
            ),
            CreateReply::BadToken(e) => Err(
                EngineError::Backend("invalid auth token: ".to_owned().concat(e.as_str())),
            ),
            CreateReply::RequestFailed(e) => Err(
                EngineError::Backend(
                    "operator create-job request failed: ".to_owned().concat(e.as_str()),
                ),
            ),
            CreateReply::Refused(text) => Err(
                answered("operator create-job returned error: ", text),
            ),
        }
    }

    /// What to do next while waiting for a recipe's job.
    pub fn poll(&self, recipe: &TrainingRecipe, seed: u64, event: PollEvent) -> (r: PollAction)
        ensures
            match decided(job_id(*recipe, seed), self.config.timeout_secs, event) {
                PollDecision::Wait => r == (PollAction::Wait {
                    millis: self.config.poll_interval_ms,
                }),
                PollDecision::Fail(why) => r matches PollAction::Finish(
                    Err(EngineError::Backend(m)),
                ) && m@ == why,
                PollDecision::Trained(loss) => r == PollAction::Finish(
                    Ok(
                        TrainedArtifact { recipe: *recipe, train_seed: seed, train_loss: loss },
                    ),
                ),
            },
    {
        let error = match event {
            PollEvent::DeadlinePassed => {
                let mut text = "operator job ".to_owned();
                text.append(to_decimal(derive_job_id(recipe, seed)).as_str());
                text.append(" did not complete within ");
                text.append(to_decimal(self.config.timeout_secs).as_str());
                text.append(" seconds");
                EngineError::Backend(text)
            },
            PollEvent::RequestFailed(e) => EngineError::Backend(
                "operator status request failed: ".to_owned().concat(e.as_str()),
            ),
            PollEvent::Refused(text) => answered("operator status returned error: ", text),
            PollEvent::Malformed(e) => EngineError::Backend(
                "operator status was not valid JSON: ".to_owned().concat(e.as_str()),
            ),
            PollEvent::Status { completed, current_loss } => {
                if !completed {
                    return PollAction::Wait { millis: self.config.poll_interval_ms };
                }
                if current_loss.is_finite() {
                    return PollAction::Finish(
                        Ok(
                            TrainedArtifact {
                                recipe: *recipe,
                                train_seed: seed,
                                train_loss: current_loss,
                            },
                        ),
                    );
                }
                EngineError::Backend("operator reported a non-finite current_loss".to_owned())
            },
        };
        PollAction::Finish(Err(error))
    }
}

impl TrainingCluster for BlueprintOperatorCluster {
    fn id(&self) -> (r: &str)
        ensures
            r@ == "training-blueprint-operator"@,
    {
        "training-blueprint-operator"
    }

    fn provides_sealed_isolation(&self) -> (r: bool)
        ensures
            r == self.tee,
    {
        self.tee
    }
}

// --- What an answer comes to, in plain terms ---------------------------------

/// Waiting goes on exactly while the operator says that the job is not completed, and
/// ends well exactly where it says that it is, with a loss that is a finite number.
pub proof fn only_an_unfinished_job_is_waited_for(id: u64, timeout_secs: u64, event: PollEvent)
    ensures
        decided(id, timeout_secs, event) is Wait <==> {
            &&& event matches PollEvent::Status { completed, current_loss }
            &&& !completed
        },
        decided(id, timeout_secs, event) is Trained <==> {
            &&& event matches PollEvent::Status { completed, current_loss }
            &&& completed
            &&& current_loss.bits % 0x8000_0000_0000_0000 < 0x7ff0_0000_0000_0000
        },
        decided(id, timeout_secs, event) matches PollDecision::Trained(loss) ==> loss
            == event->Status_current_loss,
{
    if let PollEvent::Status { completed, current_loss } = event {
        bits_tell_what_is_a_number(current_loss);
    }
}

/// A job is created exactly where the operator took it.
pub proof fn only_an_accepted_job_is_created(reply: CreateReply)
    ensures
        create_fault(reply) is None <==> reply is Accepted,
        reply matches CreateReply::Refused(Some(said)) ==> create_fault(reply) == Some(
            "operator create-job returned error: "@ + said@,
        ),
        reply matches CreateReply::Refused(None) ==> create_fault(reply) == Some(
            "operator create-job returned error: "@ + "<unreadable response>"@,
        ),
{
}

/// A job's id tells its recipe and its seed and nothing else: recipes of the same numbers
/// have the same job.
pub proof fn a_job_goes_by_the_numbers_of_its_recipe(
    a: TrainingRecipe,
    b: TrainingRecipe,
    seed: u64,
)
    requires
        a.islands == b.islands,
        a.inner_steps == b.inner_steps,
        a.inner_lr.bits == b.inner_lr.bits,
        a.outer_lr.bits == b.outer_lr.bits,
        a.keep_fraction.bits == b.keep_fraction.bits,
    ensures
        job_id(a, seed) == job_id(b, seed),
        job_id(a, seed) == hash_of_words(
            a.islands,
            a.inner_steps,
            a.inner_lr.bits,
            a.outer_lr.bits,
            a.keep_fraction.bits,
            seed,
        ),
{
}

/// Slashes at the end of an endpoint make no difference to where jobs are created.
pub proof fn trailing_slashes_make_no_difference(
    a: BlueprintOperatorCluster,
    b: BlueprintOperatorCluster,
)
    requires
        b.config.endpoint@ == a.config.endpoint@.push('/'),
    ensures
        a.jobs_url() == b.jobs_url(),
        a.config.endpoint@.len() > 0 && a.config.endpoint@.last() != '/' ==> a.jobs_url()
            == a.config.endpoint@ + "/v1/training/jobs"@,
{
    assert(b.config.endpoint@.drop_last() =~= a.config.endpoint@);
}

/// A request to create a job names the job, the task and how often to synchronise, each
/// once and in this order.
pub proof fn a_job_request_names_the_task(
    job_id: u64,
    task: BlueprintTaskConfig,
    inner_steps: u32,
)
    ensures
        ({
            let fields = job_fields(job_id, task, inner_steps);
            &&& fields.len() == 6
            &&& fields[0].key == "job_id"@ && fields[0].value == JsonView::Number(job_id)
            &&& fields[1].key == "base_model"@ && fields[1].value == JsonView::Text(
                task.base_model@,
            )
            &&& fields[2].key == "dataset_url"@ && fields[2].value == JsonView::Text(
                task.dataset_url@,
            )
            &&& fields[3].key == "method"@ && fields[3].value == JsonView::Text(task.method@)
            &&& fields[4].key == "total_epochs"@ && fields[4].value == JsonView::Number(
                task.total_epochs as u64,
            )
            &&& fields[5].key == "sync_interval_steps"@ && fields[5].value == JsonView::Number(
                inner_steps as u64,
            )
        }),
{
}

/// What a cluster does with what it hears: it waits exactly while the job is not completed,
/// and hands over the recipe, the seed and the loss exactly where it is completed with a
/// finite one; everything else ends the wait with a failure. A job counts as created
/// exactly where it was taken. A request is given the timeout, but ten seconds at least.
pub proof fn a_cluster_waits_for_an_unfinished_job(
    cluster: &BlueprintOperatorCluster,
    recipe: &TrainingRecipe,
    seed: u64,
    event: PollEvent,
    action: PollAction,
    reply: CreateReply,
    created: Result<(), EngineError>,
    timeout: u64,
)
    requires
        call_ensures(BlueprintOperatorCluster::poll, (cluster, recipe, seed, event), action),
        call_ensures(BlueprintOperatorCluster::created, (cluster, reply), created),
        call_ensures(BlueprintOperatorCluster::request_timeout_secs, (cluster,), timeout),
    ensures
        action is Wait <==> {
            &&& event matches PollEvent::Status { completed, current_loss }
            &&& !completed
        },
        action matches PollAction::Wait { millis } ==> millis == cluster.config.poll_interval_ms,
        action matches PollAction::Finish(Ok(artifact)) ==> {
            &&& event matches PollEvent::Status { completed, current_loss }
            &&& completed
            &&& current_loss.finite()
            &&& artifact.recipe == *recipe
            &&& artifact.train_seed == seed
            &&& artifact.train_loss == current_loss
        },
        event matches PollEvent::Status { completed, current_loss } ==> completed
            && current_loss.finite() ==> (action matches PollAction::Finish(r) && r is Ok),
        created is Ok <==> reply is Accepted,
        timeout >= 10,
        timeout == 10 || timeout == cluster.config.timeout_secs,
        timeout >= cluster.config.timeout_secs,
{
}

/// Where a job is created and asked about, and who asks: below the endpoint without its
/// trailing slashes, by the id of the recipe and the seed, with the token as a bearer where
/// there is one.
pub proof fn a_job_is_asked_about_by_its_id(
    cluster: &BlueprintOperatorCluster,
    recipe: &TrainingRecipe,
    seed: u64,
    create_url: String,
    status_url: String,
    header: Option<String>,
)
    requires
        call_ensures(BlueprintOperatorCluster::create_url, (cluster,), create_url),
        call_ensures(BlueprintOperatorCluster::status_url, (cluster, recipe, seed), status_url),
        call_ensures(BlueprintOperatorCluster::authorization, (cluster,), header),
    ensures
        create_url@ == without_trailing(cluster.config.endpoint@, '/') + "/v1/training/jobs"@,
        status_url@ == create_url@ + "/"@ + decimal(
            hash_of_words(
                recipe.islands,
                recipe.inner_steps,
                recipe.inner_lr.bits,
                recipe.outer_lr.bits,
                recipe.keep_fraction.bits,
                seed,
            ) as nat,
        ),
        header is Some <==> cluster.config.auth_token is Some,
        header matches Some(h) ==> h@ == "Bearer "@ + cluster.config.auth_token->0@,
{
}

} // verus!
