use vstd::prelude::*;

verus! {

#[derive(Debug, PartialEq, Eq)]
pub struct Scope {
    pub client: String,
    pub project: String,
}

impl Clone for Scope {
    fn clone(&self) -> (r: Self)
        ensures
            r == *self,
    {
        Scope {
            client: self.client.clone(),
            project: self.project.clone(),
        }
    }
}

#[derive(Debug, PartialEq, Eq)]
pub struct VersionRef {
    pub id: String,
    pub version: String,
}

impl Clone for VersionRef {
    fn clone(&self) -> (r: Self)
        ensures
            r == *self,
    {
        VersionRef {
            id: self.id.clone(),
            version: self.version.clone(),
        }
    }
}

#[derive(Debug, PartialEq, Eq)]
pub struct ArtifactRef {
    pub path: String,
    pub version: String,
}

impl Clone for ArtifactRef {
    fn clone(&self) -> (r: Self)
        ensures
            r == *self,
    {
        ArtifactRef {
            path: self.path.clone(),
            version: self.version.clone(),
        }
    }
}

#[derive(Clone, Debug, PartialEq, Eq)]
pub struct Provenance {
    pub origin: Origin,
    pub source_refs: Vec<String>,
    pub scenario_family: String,
    pub split: Split,
    pub limitations: Vec<String>,
}

#[derive(Debug, PartialEq, Eq)]
pub struct Budget {
    pub max_calls: u32,
    pub max_tokens: String,
    pub max_cost_microusd: String,
    pub max_actions: u32,
    pub max_work_items: u32,
    pub max_depth: u32,
    pub deadline_ms: String,
}

impl Clone for Budget {
    fn clone(&self) -> (r: Self)
        ensures
            r == *self,
    {
        Budget {
            max_calls: self.max_calls,
            max_tokens: self.max_tokens.clone(),
            max_cost_microusd: self.max_cost_microusd.clone(),
            max_actions: self.max_actions,
            max_work_items: self.max_work_items,
            max_depth: self.max_depth,
            deadline_ms: self.deadline_ms.clone(),
        }
    }
}

#[derive(Debug, PartialEq, Eq)]
pub struct Grant {
    pub id: String,
    pub scope: Scope,
    pub mode: Mode,
    pub paths: Vec<String>,
    pub tools: Vec<String>,
    pub profiles: Vec<Profile>,
    pub budget: Budget,
    pub context: String,
    pub visible_splits: Vec<Split>,
    pub allow_export: bool,
    pub required_checks: Option<Vec<String>>,
    pub writable_paths: Option<Vec<String>>,
    pub discovery_corpus: Option<VersionRef>,
    pub prepared_run: Option<String>,
}

impl Clone for Grant {
    fn clone(&self) -> (r: Self)
        ensures
            crate::compare::same_grant(r, *self),
    {
        let r = Grant {
            id: self.id.clone(),
            scope: self.scope.clone(),
            mode: self.mode,
            paths: self.paths.clone(),
            tools: self.tools.clone(),
            profiles: self.profiles.clone(),
            budget: self.budget.clone(),
            context: self.context.clone(),
            visible_splits: self.visible_splits.clone(),
            allow_export: self.allow_export,
            required_checks: self.required_checks.clone(),
            writable_paths: self.writable_paths.clone(),
            discovery_corpus: self.discovery_corpus.clone(),
            prepared_run: self.prepared_run.clone(),
        };
        assert(crate::compare::texts(r.paths@) =~= crate::compare::texts(self.paths@));
        assert(crate::compare::texts(r.tools@) =~= crate::compare::texts(self.tools@));
        assert(r.profiles@ =~= self.profiles@);
        assert(r.visible_splits@ =~= self.visible_splits@);
        match (&r.required_checks, &self.required_checks) {
            (Some(a), Some(b)) => {
                assert(crate::compare::texts(a@) =~= crate::compare::texts(b@));
            },
            _ => {},
        }
        match (&r.writable_paths, &self.writable_paths) {
            (Some(a), Some(b)) => {
                assert(crate::compare::texts(a@) =~= crate::compare::texts(b@));
            },
            _ => {},
        }
        r
    }
}

#[derive(Clone, Debug, PartialEq, Eq)]
pub struct Dependency {
    pub source: ArtifactRef,
    pub dependent: ArtifactRef,
    pub basis: DependencyBasis,
    pub evidence_refs: Vec<String>,
}

#[derive(Clone, Debug, PartialEq, Eq)]
pub struct Definition {
    pub name: String,
    pub version: String,
    pub intent: String,
    pub applicability: String,
    pub recognition_instructions: String,
    pub obligations: Vec<String>,
    pub positive_examples: Vec<String>,
    pub counterexamples: Vec<String>,
    pub checks: Vec<String>,
    pub functional_contract: Option<FunctionalContract>,
}

#[derive(Clone, Debug, PartialEq, Eq)]
pub struct ObligationResult {
    pub obligation: String,
    pub state: ObligationState,
    pub evidence_refs: Vec<String>,
}

#[derive(Clone, Debug, PartialEq, Eq)]
pub struct Finding {
    pub subject: String,
    pub observation: String,
    pub interpretation: String,
    pub evidence_refs: Vec<String>,
    pub uncertainty: Vec<String>,
    pub operator: String,
}

#[derive(Clone, Debug, PartialEq, Eq)]
pub struct Memory {
    pub kind: MemoryKind,
    pub content: String,
    pub applicability: String,
    pub evidence_refs: Vec<String>,
    pub counterexamples: Vec<String>,
    pub responses: Vec<String>,
    pub regression_cases: Vec<String>,
    pub expires_ms: Option<String>,
    pub conflicts: Vec<String>,
    pub supersedes: Vec<String>,
}

#[derive(Clone, Debug, PartialEq, Eq)]
pub struct Recommendation {
    pub implementation: VersionRef,
    pub context: String,
    pub decision: AdmissionDecision,
    pub evaluation_refs: Vec<String>,
    pub rationale: String,
    pub restrictions: Vec<String>,
}

#[derive(Clone, Debug, PartialEq, Eq)]
pub struct Admission {
    pub implementation: VersionRef,
    pub context: String,
    pub decision: AdmissionDecision,
    pub evaluation_refs: Vec<String>,
    pub restrictions: Vec<String>,
    pub authority: String,
    pub policy_id: String,
    pub supersedes: Vec<String>,
}

#[derive(Clone, Debug, PartialEq, Eq)]
pub struct Regulation {
    pub conditions: String,
    pub selected_behavior: String,
    pub scope: Scope,
    pub reconsider_when: String,
    pub evidence_refs: Vec<String>,
}

#[derive(Clone, Debug, PartialEq, Eq)]
pub struct Obligation {
    pub description: String,
    pub owner: String,
    pub subject: String,
    pub state: ObligationState,
    pub affected_outputs: Vec<String>,
    pub created_ms: String,
    pub consequence_boundary: String,
    pub evidence_refs: Vec<String>,
}

#[derive(Debug, PartialEq, Eq)]
pub struct Action {
    pub operation_id: String,
    pub kind: ActionKind,
    pub path: Option<String>,
    pub expected_version: Option<String>,
    pub content: Option<String>,
    pub tool: Option<String>,
    pub branch_id: Option<String>,
    pub intervention_ref: Option<String>,
    pub implementation: Option<VersionRef>,
}

impl Clone for Action {
    fn clone(&self) -> (r: Self)
        ensures
            r == *self,
    {
        Action {
            operation_id: self.operation_id.clone(),
            kind: self.kind,
            path: self.path.clone(),
            expected_version: self.expected_version.clone(),
            content: self.content.clone(),
            tool: self.tool.clone(),
            branch_id: self.branch_id.clone(),
            intervention_ref: self.intervention_ref.clone(),
            implementation: self.implementation.clone(),
        }
    }
}

#[derive(Clone, Debug, PartialEq, Eq)]
pub struct ActionReceipt {
    pub operation_id: String,
    pub run_id: String,
    pub status: EffectStatus,
    pub action: Action,
    pub before: Vec<ArtifactRef>,
    pub after: Vec<ArtifactRef>,
    pub output: String,
    pub side_effects: Vec<String>,
    pub started_ms: String,
    pub finished_ms: Option<String>,
    pub elapsed_ms: Option<String>,
    pub reconciled: bool,
    pub evidence_ref: Option<String>,
    pub outcome_basis: Option<EffectOutcomeBasis>,
    pub validations: Option<Vec<ValidationEvidence>>,
    pub restored_validity: Option<Vec<ArtifactRef>>,
    pub restored_properties: Option<Vec<ValidatedProperty>>,
    pub settlement: Option<EffectSettlement>,
    pub content_available: Option<bool>,
}

#[derive(Debug, PartialEq, Eq)]
pub struct AgentResult {
    pub disposition: Disposition,
    pub summary: String,
}

impl Clone for AgentResult {
    fn clone(&self) -> (r: Self)
        ensures
            r == *self,
    {
        AgentResult {
            disposition: self.disposition,
            summary: self.summary.clone(),
        }
    }
}

#[derive(Clone, Debug, PartialEq, Eq)]
pub struct Handshake {
    pub protocol: String,
    pub build: String,
    pub pi: String,
    pub session: String,
    pub capabilities: Vec<String>,
}

#[derive(Debug, PartialEq, Eq)]
pub struct Empty {
}

impl Clone for Empty {
    fn clone(&self) -> (r: Self)
        ensures
            r == *self,
    {
        Empty {}
    }
}

#[derive(Debug, PartialEq, Eq)]
pub struct IdRequest {
    pub id: String,
}

impl Clone for IdRequest {
    fn clone(&self) -> (r: Self)
        ensures
            r == *self,
    {
        IdRequest {
            id: self.id.clone(),
        }
    }
}

#[derive(Debug, PartialEq, Eq)]
pub struct OkReply {
    pub ok: bool,
}

impl Clone for OkReply {
    fn clone(&self) -> (r: Self)
        ensures
            r == *self,
    {
        OkReply {
            ok: self.ok,
        }
    }
}

#[derive(Clone, Debug, PartialEq, Eq)]
pub struct EvidenceRequest {
    pub cursor: String,
    pub limit: u32,
    pub run_id: Option<String>,
    pub event_refs: Option<Vec<String>>,
    pub neighbors: Option<bool>,
    pub kind: Option<String>,
    pub artifact: Option<ArtifactRef>,
    pub query: Option<String>,
    pub through_cursor: Option<String>,
}

#[derive(Debug, PartialEq, Eq)]
pub struct SearchRequest {
    pub query: String,
    pub kind: Option<RecordKind>,
    pub inventory: SearchRequestInventory,
    pub limit: u32,
    pub offset: u32,
    pub query_mode: Option<SearchRequestQueryMode>,
    pub order: Option<SearchRequestOrder>,
    pub eligible: Option<bool>,
    pub function: Option<String>,
    pub after: Option<String>,
}

impl Clone for SearchRequest {
    fn clone(&self) -> (r: Self)
        ensures
            r == *self,
    {
        SearchRequest {
            query: self.query.clone(),
            kind: self.kind,
            inventory: self.inventory,
            limit: self.limit,
            offset: self.offset,
            query_mode: self.query_mode,
            order: self.order,
            eligible: self.eligible.clone(),
            function: self.function.clone(),
            after: self.after.clone(),
        }
    }
}

#[derive(Debug, PartialEq, Eq)]
pub struct ArtifactRead {
    pub path: String,
    pub offset: u32,
    pub length: u32,
    pub branch_id: Option<String>,
    pub snapshot_id: Option<String>,
    pub required_freshness: Option<Freshness>,
}

impl Clone for ArtifactRead {
    fn clone(&self) -> (r: Self)
        ensures
            r == *self,
    {
        ArtifactRead {
            path: self.path.clone(),
            offset: self.offset,
            length: self.length,
            branch_id: self.branch_id.clone(),
            snapshot_id: self.snapshot_id.clone(),
            required_freshness: self.required_freshness,
        }
    }
}

#[derive(Debug, PartialEq, Eq)]
pub struct ArtifactChunk {
    pub artifact: ArtifactRef,
    pub content: String,
    pub offset: u32,
    pub total_bytes: String,
    pub eof: bool,
    pub snapshot_id: Option<String>,
    pub required_freshness: Option<Freshness>,
}

impl Clone for ArtifactChunk {
    fn clone(&self) -> (r: Self)
        ensures
            r == *self,
    {
        ArtifactChunk {
            artifact: self.artifact.clone(),
            content: self.content.clone(),
            offset: self.offset,
            total_bytes: self.total_bytes.clone(),
            eof: self.eof,
            snapshot_id: self.snapshot_id.clone(),
            required_freshness: self.required_freshness,
        }
    }
}

#[derive(Clone, Debug, PartialEq, Eq)]
pub struct WorkRequest {
    pub subject: String,
    pub profile: Profile,
    pub operator: String,
    pub reason: String,
    pub evidence_refs: Vec<String>,
}

#[derive(Clone, Debug, PartialEq, Eq)]
pub struct WorkItem {
    pub id: String,
    pub scope: Scope,
    pub subject: String,
    pub profile: Profile,
    pub operator: String,
    pub reason: String,
    pub evidence_refs: Vec<String>,
    pub root_id: String,
    pub parent_id: String,
    pub depth: u32,
    pub status: WorkItemStatus,
    pub attempts: u32,
    pub lease_until_ms: String,
    pub owner: String,
}

#[derive(Debug, PartialEq, Eq)]
pub struct MessageSend {
    pub recipient: String,
    pub topic: String,
    pub body: String,
    pub correlation: String,
}

impl Clone for MessageSend {
    fn clone(&self) -> (r: Self)
        ensures
            r == *self,
    {
        MessageSend {
            recipient: self.recipient.clone(),
            topic: self.topic.clone(),
            body: self.body.clone(),
            correlation: self.correlation.clone(),
        }
    }
}

#[derive(Debug, PartialEq, Eq)]
pub struct Message {
    pub id: String,
    pub sender: String,
    pub recipient: String,
    pub topic: String,
    pub body: String,
    pub correlation: String,
    pub sequence: String,
    pub attempts: u32,
}

impl Clone for Message {
    fn clone(&self) -> (r: Self)
        ensures
            r == *self,
    {
        Message {
            id: self.id.clone(),
            sender: self.sender.clone(),
            recipient: self.recipient.clone(),
            topic: self.topic.clone(),
            body: self.body.clone(),
            correlation: self.correlation.clone(),
            sequence: self.sequence.clone(),
            attempts: self.attempts,
        }
    }
}

#[derive(Clone, Debug, PartialEq, Eq)]
pub struct Inbox {
    pub messages: Vec<Message>,
}

#[derive(Debug, PartialEq, Eq)]
pub struct RetireRequest {
    pub id: String,
    pub expected_version: String,
    pub delete: bool,
}

impl Clone for RetireRequest {
    fn clone(&self) -> (r: Self)
        ensures
            r == *self,
    {
        RetireRequest {
            id: self.id.clone(),
            expected_version: self.expected_version.clone(),
            delete: self.delete,
        }
    }
}

#[derive(Debug, PartialEq, Eq)]
pub struct PermitRequest {
    pub max_output_tokens: u32,
    pub input_tokens_bound: String,
    pub cost_microusd_bound: String,
    pub compaction_id: Option<String>,
    pub call_id: Option<String>,
}

impl Clone for PermitRequest {
    fn clone(&self) -> (r: Self)
        ensures
            r == *self,
    {
        PermitRequest {
            max_output_tokens: self.max_output_tokens,
            input_tokens_bound: self.input_tokens_bound.clone(),
            cost_microusd_bound: self.cost_microusd_bound.clone(),
            compaction_id: self.compaction_id.clone(),
            call_id: self.call_id.clone(),
        }
    }
}

#[derive(Debug, PartialEq, Eq)]
pub struct Permit {
    pub id: String,
    pub max_output_tokens: u32,
}

impl Clone for Permit {
    fn clone(&self) -> (r: Self)
        ensures
            r == *self,
    {
        Permit {
            id: self.id.clone(),
            max_output_tokens: self.max_output_tokens,
        }
    }
}

#[derive(Debug, PartialEq, Eq)]
pub struct Usage {
    pub permit_id: String,
    pub input_tokens: String,
    pub output_tokens: String,
    pub cost_microusd: String,
    pub complete: bool,
}

impl Clone for Usage {
    fn clone(&self) -> (r: Self)
        ensures
            r == *self,
    {
        Usage {
            permit_id: self.permit_id.clone(),
            input_tokens: self.input_tokens.clone(),
            output_tokens: self.output_tokens.clone(),
            cost_microusd: self.cost_microusd.clone(),
            complete: self.complete,
        }
    }
}

#[derive(Debug, PartialEq, Eq)]
pub struct ExperimentRequest {
    pub id: String,
}

impl Clone for ExperimentRequest {
    fn clone(&self) -> (r: Self)
        ensures
            r == *self,
    {
        ExperimentRequest {
            id: self.id.clone(),
        }
    }
}

#[derive(Debug, PartialEq, Eq)]
pub struct AdmissionRequest {
    pub recommendation_id: String,
}

impl Clone for AdmissionRequest {
    fn clone(&self) -> (r: Self)
        ensures
            r == *self,
    {
        AdmissionRequest {
            recommendation_id: self.recommendation_id.clone(),
        }
    }
}

#[derive(Clone, Debug, PartialEq, Eq)]
pub struct ExportRequest {
    pub record_ids: Vec<String>,
    pub product: Origin,
}

#[derive(Debug, PartialEq, Eq)]
pub struct ExportResult {
    pub path: String,
    pub count: u32,
    pub artifact: ArtifactRef,
}

impl Clone for ExportResult {
    fn clone(&self) -> (r: Self)
        ensures
            r == *self,
    {
        ExportResult {
            path: self.path.clone(),
            count: self.count,
            artifact: self.artifact.clone(),
        }
    }
}

#[derive(Debug, PartialEq, Eq)]
pub struct Variant {
    pub arm: String,
    pub implementation: VersionRef,
}

impl Clone for Variant {
    fn clone(&self) -> (r: Self)
        ensures
            r == *self,
    {
        Variant {
            arm: self.arm.clone(),
            implementation: self.implementation.clone(),
        }
    }
}

#[derive(Debug, PartialEq, Eq)]
pub struct HostHelloRequest {
    pub protocol: String,
}

impl Clone for HostHelloRequest {
    fn clone(&self) -> (r: Self)
        ensures
            r == *self,
    {
        HostHelloRequest {
            protocol: self.protocol.clone(),
        }
    }
}

#[derive(Clone, Debug, PartialEq, Eq)]
pub struct HostHello {
    pub protocol: String,
    pub scope: Scope,
    pub capabilities: Vec<AttachmentCapability>,
}

#[derive(Clone, Debug, PartialEq, Eq)]
pub struct AttachmentOpen {
    pub id: String,
    pub execution_id: String,
    pub connector: String,
    pub connector_version: String,
    pub start: AttachmentOpenStart,
    pub capabilities: Vec<AttachmentCapability>,
}

#[derive(Debug, PartialEq, Eq)]
pub struct RepairHandoff {
    pub generation: String,
    pub work_id: String,
    pub deadline_ms: String,
    pub state: RepairHandoffState,
}

impl Clone for RepairHandoff {
    fn clone(&self) -> (r: Self)
        ensures
            r == *self,
    {
        RepairHandoff {
            generation: self.generation.clone(),
            work_id: self.work_id.clone(),
            deadline_ms: self.deadline_ms.clone(),
            state: self.state,
        }
    }
}

#[derive(Clone, Debug, PartialEq, Eq)]
pub struct Attachment {
    pub id: String,
    pub grant_id: String,
    pub scope: Scope,
    pub execution_id: String,
    pub connector: String,
    pub connector_version: String,
    pub capabilities: Vec<AttachmentCapability>,
    pub state: AttachmentState,
    pub source_status: AttachmentSourceStatus,
    pub start_cursor: String,
    pub cursor: String,
    pub frontier: String,
    pub coverage: Vec<String>,
    pub created_ms: String,
    pub updated_ms: String,
    pub last_error: String,
    pub handoff: Option<RepairHandoff>,
}

#[derive(Debug, PartialEq, Eq)]
pub struct IngestionReceipt {
    pub inserted: u32,
    pub duplicates: u32,
    pub cursor: String,
}

impl Clone for IngestionReceipt {
    fn clone(&self) -> (r: Self)
        ensures
            r == *self,
    {
        IngestionReceipt {
            inserted: self.inserted,
            duplicates: self.duplicates,
            cursor: self.cursor.clone(),
        }
    }
}

#[derive(Debug, PartialEq, Eq)]
pub struct AttachmentRequest {
    pub attachment_id: String,
}

impl Clone for AttachmentRequest {
    fn clone(&self) -> (r: Self)
        ensures
            r == *self,
    {
        AttachmentRequest {
            attachment_id: self.attachment_id.clone(),
        }
    }
}

#[derive(Clone, Debug, PartialEq, Eq)]
pub struct AttachmentFeedback {
    pub id: String,
    pub attachment_id: String,
    pub run_id: String,
    pub kind: AttachmentFeedbackKind,
    pub state: FeedbackState,
    pub summary: String,
    pub disposition: Disposition,
    pub record_refs: Vec<String>,
    pub evidence_refs: Vec<String>,
    pub artifact_versions: Vec<ArtifactRef>,
    pub expires_ms: String,
    pub attempts: u32,
    pub detail: String,
}

#[derive(Clone, Debug, PartialEq, Eq)]
pub struct AttachmentFeedbackPage {
    pub items: Vec<AttachmentFeedback>,
}

/// What an attachment's grant has drawn from providers: the calls not released, those
/// whose usage is unknown or incomplete, and the cost observed in reported usage.
#[derive(Debug, PartialEq, Eq)]
pub struct AttachmentUsage {
    pub calls: u64,
    pub unknown_calls: u64,
    pub observed_cost_microusd: String,
}

/// An attachment with the work, feedback and provider usage it accounts for.
#[derive(Debug)]
pub struct AttachmentStatus {
    pub attachment: Attachment,
    pub queued_work: u32,
    pub running_work: u32,
    pub pending_feedback: u32,
    pub usage: AttachmentUsage,
    /// Each feedback state that occurs, in the order of its name, with how many
    /// feedback items are in it.
    pub feedback_states: Vec<(FeedbackState, u64)>,
}

#[derive(Debug, PartialEq, Eq)]
pub struct FeedbackAcknowledgement {
    pub attachment_id: String,
    pub feedback_id: String,
    pub outcome: FeedbackAcknowledgementOutcome,
    pub detail: String,
}

impl Clone for FeedbackAcknowledgement {
    fn clone(&self) -> (r: Self)
        ensures
            r == *self,
    {
        FeedbackAcknowledgement {
            attachment_id: self.attachment_id.clone(),
            feedback_id: self.feedback_id.clone(),
            outcome: self.outcome,
            detail: self.detail.clone(),
        }
    }
}

#[derive(Debug, PartialEq, Eq)]
pub struct FeedbackRequest {
    pub attachment_id: String,
    pub feedback_id: String,
}

impl Clone for FeedbackRequest {
    fn clone(&self) -> (r: Self)
        ensures
            r == *self,
    {
        FeedbackRequest {
            attachment_id: self.attachment_id.clone(),
            feedback_id: self.feedback_id.clone(),
        }
    }
}

#[derive(Debug, PartialEq, Eq)]
pub struct AttachmentRecordRequest {
    pub attachment_id: String,
    pub record_id: String,
}

impl Clone for AttachmentRecordRequest {
    fn clone(&self) -> (r: Self)
        ensures
            r == *self,
    {
        AttachmentRecordRequest {
            attachment_id: self.attachment_id.clone(),
            record_id: self.record_id.clone(),
        }
    }
}

#[derive(Debug, PartialEq, Eq)]
pub struct AttachmentInterruption {
    pub attachment_id: String,
    pub reason: String,
}

impl Clone for AttachmentInterruption {
    fn clone(&self) -> (r: Self)
        ensures
            r == *self,
    {
        AttachmentInterruption {
            attachment_id: self.attachment_id.clone(),
            reason: self.reason.clone(),
        }
    }
}

#[derive(Debug, PartialEq, Eq)]
pub struct AttachmentRelease {
    pub attachment_id: String,
    pub generation: String,
}

impl Clone for AttachmentRelease {
    fn clone(&self) -> (r: Self)
        ensures
            r == *self,
    {
        AttachmentRelease {
            attachment_id: self.attachment_id.clone(),
            generation: self.generation.clone(),
        }
    }
}

#[derive(Debug, PartialEq, Eq)]
pub struct ContextSource {
    pub kind: ContextSourceKind,
    pub id: String,
    pub version: String,
}

impl Clone for ContextSource {
    fn clone(&self) -> (r: Self)
        ensures
            r == *self,
    {
        ContextSource {
            kind: self.kind,
            id: self.id.clone(),
            version: self.version.clone(),
        }
    }
}

#[derive(Debug, PartialEq, Eq)]
pub struct ContextState {
    pub segment_id: String,
    pub count: String,
    pub generation: String,
    pub rebuilt: bool,
    pub tail_after: String,
    pub summary_ref: Option<String>,
    pub summary_through: Option<String>,
}

impl Clone for ContextState {
    fn clone(&self) -> (r: Self)
        ensures
            r == *self,
    {
        ContextState {
            segment_id: self.segment_id.clone(),
            count: self.count.clone(),
            generation: self.generation.clone(),
            rebuilt: self.rebuilt,
            tail_after: self.tail_after.clone(),
            summary_ref: self.summary_ref.clone(),
            summary_through: self.summary_through.clone(),
        }
    }
}

#[derive(Debug, PartialEq, Eq)]
pub struct ContextRead {
    pub segment_id: String,
    pub after: String,
    pub limit: u32,
}

impl Clone for ContextRead {
    fn clone(&self) -> (r: Self)
        ensures
            r == *self,
    {
        ContextRead {
            segment_id: self.segment_id.clone(),
            after: self.after.clone(),
            limit: self.limit,
        }
    }
}

#[derive(Debug, PartialEq, Eq)]
pub struct CompactionPlan {
    pub id: String,
    pub segment_id: String,
    pub after: String,
    pub through: String,
}

impl Clone for CompactionPlan {
    fn clone(&self) -> (r: Self)
        ensures
            r == *self,
    {
        CompactionPlan {
            id: self.id.clone(),
            segment_id: self.segment_id.clone(),
            after: self.after.clone(),
            through: self.through.clone(),
        }
    }
}

#[derive(Debug, PartialEq, Eq)]
pub struct CompactionPreparation {
    pub plan: Option<CompactionPlan>,
}

impl Clone for CompactionPreparation {
    fn clone(&self) -> (r: Self)
        ensures
            r == *self,
    {
        CompactionPreparation {
            plan: self.plan.clone(),
        }
    }
}

#[derive(Clone, Debug, PartialEq, Eq)]
pub struct ContextSummary {
    pub id: String,
    pub through: String,
    pub text: String,
    pub sources: Vec<ContextSource>,
}

#[derive(Debug, PartialEq, Eq)]
pub struct CompactionCommit {
    pub id: String,
    pub text: String,
    pub permit_id: String,
}

impl Clone for CompactionCommit {
    fn clone(&self) -> (r: Self)
        ensures
            r == *self,
    {
        CompactionCommit {
            id: self.id.clone(),
            text: self.text.clone(),
            permit_id: self.permit_id.clone(),
        }
    }
}

#[derive(Clone, Debug, PartialEq, Eq)]
pub struct ToolObservation {
    pub content: String,
    pub artifact: ArtifactRef,
    pub sources: Vec<ContextSource>,
    pub total_bytes: String,
    pub cursor: Option<String>,
}

#[derive(Clone, Debug, PartialEq, Eq)]
pub struct ValidationEvidence {
    pub check_ref: String,
    pub checker_version: String,
    pub policy_version: String,
    pub authority: String,
    pub receipt_ref: String,
    pub inputs: Vec<ArtifactRef>,
    pub targets: Vec<ArtifactRef>,
    pub outcome: ValidationEvidenceOutcome,
    pub branch_id: Option<String>,
    pub generation: String,
    pub properties: Option<Vec<ValidatedProperty>>,
}

#[derive(Debug, PartialEq, Eq)]
pub struct PropertyBinding {
    pub obligation: VersionRef,
    pub path: String,
}

impl Clone for PropertyBinding {
    fn clone(&self) -> (r: Self)
        ensures
            r == *self,
    {
        PropertyBinding {
            obligation: self.obligation.clone(),
            path: self.path.clone(),
        }
    }
}

#[derive(Debug, PartialEq, Eq)]
pub struct ValidatedProperty {
    pub obligation: VersionRef,
    pub artifact: ArtifactRef,
}

impl Clone for ValidatedProperty {
    fn clone(&self) -> (r: Self)
        ensures
            r == *self,
    {
        ValidatedProperty {
            obligation: self.obligation.clone(),
            artifact: self.artifact.clone(),
        }
    }
}

#[derive(Clone, Debug, PartialEq, Eq)]
pub struct PropertyAssessment {
    pub obligation: VersionRef,
    pub state: PropertyAssessmentState,
    pub evidence_refs: Vec<String>,
}

#[derive(Debug, PartialEq, Eq)]
pub struct ArtifactValidityRequest {
    pub path: String,
}

impl Clone for ArtifactValidityRequest {
    fn clone(&self) -> (r: Self)
        ensures
            r == *self,
    {
        ArtifactValidityRequest {
            path: self.path.clone(),
        }
    }
}

#[derive(Clone, Debug, PartialEq, Eq)]
pub struct ArtifactValidity {
    pub artifact: ArtifactRef,
    pub snapshot_id: String,
    pub observed_ms: String,
    pub generation: String,
    pub properties: Vec<PropertyAssessment>,
}

#[derive(Clone, Debug, PartialEq, Eq)]
pub struct EffectSettlementRequest {
    pub operation_id: String,
    pub expected_receipt_version: String,
    pub executor_stopped: bool,
    pub workspace_versions: Vec<ArtifactRef>,
    pub reason: String,
    pub source_refs: Vec<String>,
}

#[derive(Clone, Debug, PartialEq, Eq)]
pub struct EffectSettlement {
    pub request: EffectSettlementRequest,
    pub evidence_ref: String,
    pub recorded_ms: String,
}

#[derive(Clone, Debug, PartialEq, Eq)]
pub struct EffectInspection {
    pub receipt: ActionReceipt,
    pub workspace_versions: Vec<ArtifactRef>,
    pub receipt_version: String,
}

#[derive(Debug, PartialEq, Eq)]
pub struct BudgetAllocationRequest {
    pub id: String,
    pub parent_id: String,
    pub cause_id: String,
    pub purpose: String,
    pub budget: Budget,
}

impl Clone for BudgetAllocationRequest {
    fn clone(&self) -> (r: Self)
        ensures
            r == *self,
    {
        BudgetAllocationRequest {
            id: self.id.clone(),
            parent_id: self.parent_id.clone(),
            cause_id: self.cause_id.clone(),
            purpose: self.purpose.clone(),
            budget: self.budget.clone(),
        }
    }
}

#[derive(Debug, PartialEq, Eq)]
pub struct BudgetAllocation {
    pub id: String,
    pub grant_id: String,
    pub parent_id: Option<String>,
    pub cause_id: String,
    pub purpose: String,
    pub budget: Budget,
    pub disposition: Option<Disposition>,
}

impl Clone for BudgetAllocation {
    fn clone(&self) -> (r: Self)
        ensures
            r == *self,
    {
        BudgetAllocation {
            id: self.id.clone(),
            grant_id: self.grant_id.clone(),
            parent_id: self.parent_id.clone(),
            cause_id: self.cause_id.clone(),
            purpose: self.purpose.clone(),
            budget: self.budget.clone(),
            disposition: self.disposition,
        }
    }
}

#[derive(Debug, PartialEq, Eq)]
pub struct BudgetUsage {
    pub model_calls: u32,
    pub undispatched_calls: u32,
    pub unknown_calls: u32,
    pub settled_tokens: String,
    pub reserved_tokens: String,
    pub settled_cost_microusd: String,
    pub reserved_cost_microusd: String,
    pub actions: u32,
    pub work_items: u32,
}

impl Clone for BudgetUsage {
    fn clone(&self) -> (r: Self)
        ensures
            r == *self,
    {
        BudgetUsage {
            model_calls: self.model_calls,
            undispatched_calls: self.undispatched_calls,
            unknown_calls: self.unknown_calls,
            settled_tokens: self.settled_tokens.clone(),
            reserved_tokens: self.reserved_tokens.clone(),
            settled_cost_microusd: self.settled_cost_microusd.clone(),
            reserved_cost_microusd: self.reserved_cost_microusd.clone(),
            actions: self.actions,
            work_items: self.work_items,
        }
    }
}

#[derive(Debug, PartialEq, Eq)]
pub struct BudgetStatus {
    pub allocation: BudgetAllocation,
    pub usage: BudgetUsage,
    pub remaining: Budget,
}

impl Clone for BudgetStatus {
    fn clone(&self) -> (r: Self)
        ensures
            r == *self,
    {
        BudgetStatus {
            allocation: self.allocation.clone(),
            usage: self.usage.clone(),
            remaining: self.remaining.clone(),
        }
    }
}

#[derive(Clone, Debug, PartialEq, Eq)]
pub struct WorkWaitRequest {
    pub work_ids: Vec<String>,
}

#[derive(Clone, Debug, PartialEq, Eq)]
pub struct WorkWaitResult {
    pub work_ids: Vec<String>,
    pub wait_required: bool,
}

#[derive(Debug, PartialEq, Eq)]
pub struct WorkStatus {
    pub work_id: String,
    pub status: WorkItemStatus,
    pub result_available: bool,
    pub result: Option<AgentResult>,
    pub source: Option<ContextSource>,
}

impl Clone for WorkStatus {
    fn clone(&self) -> (r: Self)
        ensures
            r == *self,
    {
        WorkStatus {
            work_id: self.work_id.clone(),
            status: self.status,
            result_available: self.result_available,
            result: self.result.clone(),
            source: self.source.clone(),
        }
    }
}

#[derive(Clone, Debug, PartialEq, Eq)]
pub struct MotifEntryContract {
    pub inputs: Vec<String>,
    pub unresolved_state: Vec<String>,
    pub prerequisites: Vec<String>,
    pub not_assumed: Vec<String>,
}

#[derive(Debug, PartialEq, Eq)]
pub struct MotifRole {
    pub name: String,
    pub description: String,
}

impl Clone for MotifRole {
    fn clone(&self) -> (r: Self)
        ensures
            r == *self,
    {
        MotifRole {
            name: self.name.clone(),
            description: self.description.clone(),
        }
    }
}

#[derive(Clone, Debug, PartialEq, Eq)]
pub struct MotifDecisionPoint {
    pub condition: String,
    pub evidence_required: Vec<String>,
    pub responses: Vec<String>,
}

#[derive(Clone, Debug, PartialEq, Eq)]
pub struct MotifExitContract {
    pub results: Vec<String>,
    pub required_reports: Vec<String>,
}

#[derive(Debug, PartialEq, Eq)]
pub struct DefinitionRelation {
    pub kind: DefinitionRelationKind,
    pub definition: VersionRef,
    pub explanation: String,
}

impl Clone for DefinitionRelation {
    fn clone(&self) -> (r: Self)
        ensures
            r == *self,
    {
        DefinitionRelation {
            kind: self.kind,
            definition: self.definition.clone(),
            explanation: self.explanation.clone(),
        }
    }
}

#[derive(Debug, PartialEq, Eq)]
pub struct MotifEvaluationQuestion {
    pub kind: MotifEvaluationQuestionKind,
    pub question: String,
}

impl Clone for MotifEvaluationQuestion {
    fn clone(&self) -> (r: Self)
        ensures
            r == *self,
    {
        MotifEvaluationQuestion {
            kind: self.kind,
            question: self.question.clone(),
        }
    }
}

#[derive(Clone, Debug, PartialEq, Eq)]
pub struct FunctionalContract {
    pub entry: MotifEntryContract,
    pub roles: Vec<MotifRole>,
    pub decision_points: Vec<MotifDecisionPoint>,
    pub exit: MotifExitContract,
    pub abstention_conditions: Vec<String>,
    pub relations: Vec<DefinitionRelation>,
    pub evaluation_questions: Vec<MotifEvaluationQuestion>,
}

#[derive(Clone, Debug, PartialEq, Eq)]
pub struct MotifRoleBinding {
    pub role: String,
    pub event_refs: Vec<String>,
}

#[derive(Clone, Debug, PartialEq, Eq)]
pub struct MotifDependencyEvidence {
    pub source_event_ref: String,
    pub target_event_ref: String,
    pub basis: MotifDependencyEvidenceBasis,
    pub evidence_refs: Vec<String>,
    pub explanation: String,
}

#[derive(Clone, Debug, PartialEq, Eq)]
pub struct MotifLocalOutcome {
    pub state: MotifLocalOutcomeState,
    pub evidence_refs: Vec<String>,
    pub limitations: Vec<String>,
}

#[derive(Debug, PartialEq, Eq)]
pub struct MotifAnnotator {
    pub run_id: String,
    pub operator: String,
}

impl Clone for MotifAnnotator {
    fn clone(&self) -> (r: Self)
        ensures
            r == *self,
    {
        MotifAnnotator {
            run_id: self.run_id.clone(),
            operator: self.operator.clone(),
        }
    }
}

#[derive(Clone, Debug, PartialEq, Eq)]
pub struct OccurrenceGrounding {
    pub role_bindings: Vec<MotifRoleBinding>,
    pub incoming_context_refs: Vec<String>,
    pub dependency_evidence: Vec<MotifDependencyEvidence>,
    pub local_outcome: MotifLocalOutcome,
    pub annotator: MotifAnnotator,
    pub recognition_visibility: OccurrenceGroundingRecognitionVisibility,
}

#[derive(Clone, Debug, PartialEq, Eq)]
pub struct DiscoveryAlternative {
    pub claim: String,
    pub evidence_refs: Vec<String>,
}

#[derive(Clone, Debug, PartialEq, Eq)]
pub struct DiscoveryHypothesis {
    pub claim: String,
    pub entry_boundary: String,
    pub exit_boundary: String,
    pub conditions: Vec<String>,
    pub support_refs: Vec<String>,
    pub contradiction_refs: Vec<String>,
    pub alternatives: Vec<DiscoveryAlternative>,
    pub decision: DiscoveryHypothesisDecision,
    pub uncertainty: String,
}

#[derive(Debug, PartialEq, Eq)]
pub struct CorpusArtifact {
    pub artifact: ArtifactRef,
    pub snapshot_id: String,
}

impl Clone for CorpusArtifact {
    fn clone(&self) -> (r: Self)
        ensures
            r == *self,
    {
        CorpusArtifact {
            artifact: self.artifact.clone(),
            snapshot_id: self.snapshot_id.clone(),
        }
    }
}

#[derive(Debug, PartialEq, Eq)]
pub struct ContinuationRead {
    pub kind: ContinuationKind,
    pub after: String,
    pub limit: u32,
}

impl Clone for ContinuationRead {
    fn clone(&self) -> (r: Self)
        ensures
            r == *self,
    {
        ContinuationRead {
            kind: self.kind,
            after: self.after.clone(),
            limit: self.limit,
        }
    }
}

#[derive(Debug, PartialEq, Eq)]
pub struct ContinuationReference {
    pub id: String,
    pub version: Option<String>,
}

impl Clone for ContinuationReference {
    fn clone(&self) -> (r: Self)
        ensures
            r == *self,
    {
        ContinuationReference {
            id: self.id.clone(),
            version: self.version.clone(),
        }
    }
}

#[derive(Clone, Debug, PartialEq, Eq)]
pub struct ContinuationPage {
    pub kind: ContinuationKind,
    pub references: Vec<ContinuationReference>,
    pub next: String,
    pub complete: bool,
    pub evidence_cursor: String,
}

#[derive(Debug, PartialEq, Eq)]
pub struct BindingSlot {
    pub name: String,
    pub kind: BindingSlotKind,
    pub required: bool,
}

impl Clone for BindingSlot {
    fn clone(&self) -> (r: Self)
        ensures
            r == *self,
    {
        BindingSlot {
            name: self.name.clone(),
            kind: self.kind,
            required: self.required,
        }
    }
}

#[derive(Clone, Debug, PartialEq, Eq)]
pub struct InstructionContract {
    pub inputs: Vec<BindingSlot>,
    pub outputs: Vec<String>,
    pub entry_obligations: Vec<String>,
    pub exit_obligations: Vec<String>,
    pub limitations: Vec<String>,
    pub discovery_refs: Vec<VersionRef>,
}

#[derive(Debug, PartialEq, Eq)]
pub struct LearningCost {
    pub cost_microusd: String,
    pub reuse_count: u32,
    pub complete: bool,
}

impl Clone for LearningCost {
    fn clone(&self) -> (r: Self)
        ensures
            r == *self,
    {
        LearningCost {
            cost_microusd: self.cost_microusd.clone(),
            reuse_count: self.reuse_count,
            complete: self.complete,
        }
    }
}

#[derive(Clone, Copy, Debug, PartialEq, Eq, Structural)]
pub enum Mode {
    Observe,
    Sandbox,
    Apply,
}

#[derive(Clone, Copy, Debug, PartialEq, Eq, Structural)]
pub enum Profile {
    Caretaker,
    Curator,
    Experimenter,
}

#[derive(Clone, Copy, Debug, PartialEq, Eq, Structural)]
pub enum Origin {
    Observed,
    Reexecuted,
    Synthetic,
}

#[derive(Clone, Copy, Debug, PartialEq, Eq, Structural)]
pub enum Split {
    Development,
    Evaluation,
    Holdout,
}

#[derive(Clone, Copy, Debug, PartialEq, Eq, Structural)]
pub enum EffectStatus {
    Started,
    Succeeded,
    Failed,
    Unknown,
    Denied,
    Stale,
}

#[derive(Clone, Copy, Debug, PartialEq, Eq, Structural)]
pub enum Disposition {
    Completed,
    Abstained,
    Failed,
    Cancelled,
    Exhausted,
    Interrupted,
}

#[derive(Clone, Copy, Debug, PartialEq, Eq, Structural)]
pub enum RecordKind {
    Definition,
    Occurrence,
    Implementation,
    Finding,
    Intervention,
    Memory,
    Experiment,
    Recommendation,
    Admission,
    Evaluation,
    Regulation,
    Transplant,
    Obligation,
    Discovery,
}

#[derive(Clone, Copy, Debug, PartialEq, Eq, Structural)]
pub enum MemoryKind {
    Working,
    Episodic,
    Aggregated,
    Procedural,
    Failure,
}

#[derive(Clone, Copy, Debug, PartialEq, Eq, Structural)]
pub enum Recognition {
    Tentative,
    Supported,
    Rejected,
}

#[derive(Clone, Copy, Debug, PartialEq, Eq, Structural)]
pub enum ObligationState {
    Open,
    Satisfied,
    Violated,
    Unknown,
}

#[derive(Clone, Copy, Debug, PartialEq, Eq, Structural)]
pub enum AdmissionDecision {
    Accepted,
    Rejected,
    Inconclusive,
    Retired,
}

#[derive(Clone, Copy, Debug, PartialEq, Eq, Structural)]
pub enum ExperimentTemplate {
    Ablation,
    Rescue,
    Interaction,
    Stress,
    Transfer,
}

#[derive(Clone, Copy, Debug, PartialEq, Eq, Structural)]
pub enum DependencyBasis {
    Host,
    Observed,
    Inferred,
}

#[derive(Clone, Copy, Debug, PartialEq, Eq, Structural)]
pub enum ImplementationFormat {
    Instructions,
    RegisteredTool,
}

#[derive(Clone, Copy, Debug, PartialEq, Eq, Structural)]
pub enum InterventionKind {
    Repair,
    Regeneration,
    Recombination,
    Chaperone,
}

#[derive(Clone, Copy, Debug, PartialEq, Eq, Structural)]
pub enum ExperimentFeedback {
    Aggregate,
    FullDevelopment,
}

#[derive(Clone, Copy, Debug, PartialEq, Eq, Structural)]
pub enum ExperimentStudyObjective {
    Function,
    SystemBenefit,
}

#[derive(Clone, Copy, Debug, PartialEq, Eq, Structural)]
pub enum EvaluationExecutionStatus {
    Completed,
    Failed,
    Cancelled,
    Exhausted,
    NotStarted,
}

#[derive(Clone, Copy, Debug, PartialEq, Eq, Structural)]
pub enum ActionKind {
    Edit,
    Check,
    Branch,
    Apply,
    Execute,
}

#[derive(Clone, Copy, Debug, PartialEq, Eq, Structural)]
pub enum SearchRequestInventory {
    Evidence,
    Usable,
}

#[derive(Clone, Copy, Debug, PartialEq, Eq, Structural)]
pub enum SearchRequestQueryMode {
    AllTerms,
    AnyTerms,
}

#[derive(Clone, Copy, Debug, PartialEq, Eq, Structural)]
pub enum SearchRequestOrder {
    Id,
    Relevance,
}

#[derive(Clone, Copy, Debug, PartialEq, Eq, Structural)]
pub enum AgentActivityRole {
    User,
    Assistant,
    ToolResult,
}

#[derive(Clone, Copy, Debug, PartialEq, Eq, Structural)]
pub enum AttachmentCapability {
    Observe,
    Steer,
    CoordinatedWrite,
}

#[derive(Clone, Copy, Debug, PartialEq, Eq, Structural)]
pub enum AttachmentState {
    Active,
    Interrupted,
    Detached,
    Completed,
}

#[derive(Clone, Copy, Debug, PartialEq, Eq, Structural)]
pub enum FeedbackState {
    Pending,
    Delivered,
    Acknowledged,
    Rejected,
    Expired,
    Unknown,
}

#[derive(Clone, Copy, Debug, PartialEq, Eq, Structural)]
pub enum AttachmentOpenStart {
    Now,
    History,
}

#[derive(Clone, Copy, Debug, PartialEq, Eq, Structural)]
pub enum RepairHandoffState {
    Held,
    Released,
    Unknown,
}

#[derive(Clone, Copy, Debug, PartialEq, Eq, Structural)]
pub enum AttachmentSourceStatus {
    Running,
    Completed,
    Failed,
    Cancelled,
    Unknown,
}

#[derive(Clone, Copy, Debug, PartialEq, Eq, Structural)]
pub enum AttachmentFeedbackKind {
    Finding,
    Proposal,
}

#[derive(Clone, Copy, Debug, PartialEq, Eq, Structural)]
pub enum FeedbackAcknowledgementOutcome {
    Acknowledged,
    Rejected,
    Unknown,
}

#[derive(Clone, Copy, Debug, PartialEq, Eq, Structural)]
pub enum ContextSourceKind {
    Record,
    Event,
    Artifact,
}

#[derive(Clone, Copy, Debug, PartialEq, Eq, Structural)]
pub enum Freshness {
    Current,
    Historical,
}

#[derive(Clone, Copy, Debug, PartialEq, Eq, Structural)]
pub enum ToolCallMethod {
    EvidenceRead,
    SearchQuery,
    RecordRead,
    ArtifactRead,
    ActionExecute,
    ActionLookup,
    RecordSubmit,
    RecordRetire,
    WorkRequest,
    MessageSend,
    MessageInbox,
    MessageAck,
    ExperimentRun,
    InventoryAdmissionRequest,
    InventoryArchive,
    TrainingExport,
    ArtifactValidity,
    WorkWait,
    WorkStatus,
    EvidenceCorpus,
    ContinuationRead,
}

#[derive(Clone, Copy, Debug, PartialEq, Eq, Structural)]
pub enum EffectOutcomeBasis {
    ExecutionEstablished,
    CurrentPostconditionObserved,
    Unresolved,
    NotDispatched,
}

#[derive(Clone, Copy, Debug, PartialEq, Eq, Structural)]
pub enum ValidationEvidenceOutcome {
    Passed,
    Failed,
    Stale,
}

#[derive(Clone, Copy, Debug, PartialEq, Eq, Structural)]
pub enum PropertyAssessmentState {
    Unproven,
    Validated,
    Stale,
}

#[derive(Clone, Copy, Debug, PartialEq, Eq, Structural)]
pub enum WorkItemStatus {
    Queued,
    Running,
    Completed,
    Failed,
    Cancelled,
    Exhausted,
    Interrupted,
}

#[derive(Clone, Copy, Debug, PartialEq, Eq, Structural)]
pub enum DefinitionRelationKind {
    Specializes,
    Composes,
    Replaces,
}

#[derive(Clone, Copy, Debug, PartialEq, Eq, Structural)]
pub enum MotifEvaluationQuestionKind {
    Recognition,
    Function,
    Causal,
    Transfer,
}

#[derive(Clone, Copy, Debug, PartialEq, Eq, Structural)]
pub enum MotifDependencyEvidenceBasis {
    SourceReported,
    Inferred,
}

#[derive(Clone, Copy, Debug, PartialEq, Eq, Structural)]
pub enum MotifLocalOutcomeState {
    Satisfied,
    Violated,
    Unresolved,
}

#[derive(Clone, Copy, Debug, PartialEq, Eq, Structural)]
pub enum OccurrenceGroundingRecognitionVisibility {
    Retrospective,
    Online,
}

#[derive(Clone, Copy, Debug, PartialEq, Eq, Structural)]
pub enum DiscoveryHypothesisDecision {
    ProposeDefinition,
    RecognizeExisting,
    Specialize,
    Compose,
    Reject,
    Inconclusive,
}

#[derive(Clone, Copy, Debug, PartialEq, Eq, Structural)]
pub enum DiscoveryDecision {
    Supported,
    Rejected,
    Inconclusive,
    NoMotif,
}

#[derive(Clone, Copy, Debug, PartialEq, Eq, Structural)]
pub enum DiscoveryCorpusVisibility {
    Retrospective,
    Online,
}

#[derive(Clone, Copy, Debug, PartialEq, Eq, Structural)]
pub enum ContinuationKind {
    Obligation,
    Effect,
    Work,
}

#[derive(Clone, Copy, Debug, PartialEq, Eq, Structural)]
pub enum BindingSlotKind {
    String,
    Number,
    Boolean,
    Object,
    Array,
    ArtifactPath,
    Tool,
}

#[derive(Clone, Copy, Debug, PartialEq, Eq, Structural)]
pub enum ImplementationInvocationPurpose {
    Production,
    Experimental,
}

} // verus!
