use goose_kb::clock::Timestamp;
use goose_kb::error::KbError;
use goose_kb::feedback::store::{
    FeedbackEntry, FeedbackSource, FeedbackStoreProvider, InMemoryFeedbackStore,
};
use goose_kb::json::{JsonNumber, JsonObject, JsonValue};
use goose_kb::knowledge_gap::{KnowledgeGapEntry, KnowledgeGapStatus};
use goose_kb::planning::hierarchical::{OperationalStep, PlanStatus, StrategicGoal, TacticalPlan};
use goose_kb::prompt_variants::manager::{
    InMemoryPromptVariantProvider, PromptVariant, PromptVariantProvider,
};
use goose_kb::telemetry::reasoning_trace::{
    DecisionType, InMemoryTraceEmitter, ReasoningTrace, TraceEmitter,
};

fn at(secs: i64) -> Timestamp {
    Timestamp { secs, nanos: 0 }
}

fn s(text: &str) -> String {
    text.to_string()
}

fn feedback(id: &str, session: &str, secs: i64) -> FeedbackEntry {
    FeedbackEntry::new_at(
        s(id),
        s(session),
        None,
        FeedbackSource::UserCommand,
        JsonValue::string(id),
        at(secs),
    )
}

fn feedback_ids(found: &Vec<FeedbackEntry>) -> Vec<String> {
    found.iter().map(|e| e.feedback_id.clone()).collect()
}

fn variant(id: &str, key: &str, version: u32) -> PromptVariant {
    let mut v = PromptVariant::new_at(s(id), s(key), s("template"), None, at(1));
    v.version = version;
    v
}

fn variant_ids(found: &Vec<PromptVariant>) -> Vec<String> {
    let mut ids: Vec<String> = found.iter().map(|v| v.variant_id.clone()).collect();
    ids.sort();
    ids
}

#[test]
fn placeholders_do_nothing() {
    goose_kb::feedback::store::mod_rs::placeholder();
    goose_kb::planning::hierarchical::mod_rs::placeholder();
    goose_kb::prompt_variants::manager::mod_rs::placeholder();
    goose_kb::telemetry::reasoning_trace::mod_rs::placeholder();
}

#[test]
fn new_gap_is_open() {
    let gap = KnowledgeGapEntry::new(
        s("s1"),
        s("what is the build command"),
        Some(s("t1")),
        Some(JsonValue::Bool(true)),
        Some(s("MissingSpecificFact")),
    );
    assert_eq!(gap.gap_id.chars().count(), 36);
    assert_eq!(gap.session_id, "s1");
    assert_eq!(gap.description_by_llm_or_agent, "what is the build command");
    assert_eq!(gap.type_of_gap, Some(s("MissingSpecificFact")));
    assert_eq!(gap.status, KnowledgeGapStatus::Open);
    assert_eq!(gap.related_trace_id, Some(s("t1")));
    assert_eq!(gap.context_snapshot, Some(JsonValue::Bool(true)));
    assert_eq!(gap.resolution_attempts, 0);
    assert_eq!(gap.resolution_details, None);
    assert_eq!(gap.last_investigation_utc, None);
    assert_eq!(gap.priority, None);
    let other = KnowledgeGapEntry::new(s("s1"), s("d"), None, None, None);
    assert_ne!(gap.gap_id, other.gap_id);
    assert_eq!(other.type_of_gap, None);
    let fixed = KnowledgeGapEntry::new_at(s("g"), s("s"), s("d"), None, None, None, at(5));
    assert_eq!(fixed.gap_id, "g");
    assert_eq!(fixed.timestamp_identified, at(5));
}

#[test]
fn new_goal_is_pending() {
    let goal = StrategicGoal::new(s("summary"), s("description"), Some(s("m1")));
    assert_eq!(goal.id.chars().count(), 36);
    assert_eq!(goal.user_request_summary, "summary");
    assert_eq!(goal.description, "description");
    assert_eq!(goal.status, PlanStatus::Pending);
    assert_eq!(goal.created_at, goal.updated_at);
    assert!(goal.tactical_plan_ids.is_empty());
    assert_eq!(goal.properties, None);
    assert_eq!(goal.original_user_message_id, Some(s("m1")));
    let fixed = StrategicGoal::new_at(s("g"), s("a"), s("b"), None, at(3));
    assert_eq!(fixed.id, "g");
    assert_eq!(fixed.created_at, at(3));
    assert_eq!(fixed.updated_at, at(3));
}

#[test]
fn new_plan_is_pending() {
    let plan = TacticalPlan::new(s("goal-1"), s("do it"));
    assert_eq!(plan.id.chars().count(), 36);
    assert_eq!(plan.strategic_goal_id, "goal-1");
    assert_eq!(plan.description, "do it");
    assert_eq!(plan.status, PlanStatus::Pending);
    assert_eq!(plan.created_at, plan.updated_at);
    assert!(plan.operational_step_ids.is_empty());
    assert!(plan.preconditions.is_empty());
    assert!(plan.effects.is_empty());
    assert_eq!(plan.priority, None);
    assert_eq!(plan.properties, None);
    let fixed = TacticalPlan::new_at(s("p"), s("g"), s("d"), at(8));
    assert_eq!(fixed.id, "p");
    assert_eq!(fixed.created_at, at(8));
}

#[test]
fn new_step_is_pending() {
    let step = OperationalStep::new(
        s("plan-1"),
        s("run the tests"),
        s("all green"),
        Some(s("shell")),
        Some(JsonValue::string("cargo test")),
        None,
    );
    assert_eq!(step.id.chars().count(), 36);
    assert_eq!(step.tactical_plan_id, "plan-1");
    assert_eq!(step.description, "run the tests");
    assert_eq!(step.tool_name, Some(s("shell")));
    assert_eq!(step.tool_parameters, Some(JsonValue::string("cargo test")));
    assert_eq!(step.human_action_description, None);
    assert_eq!(step.status, PlanStatus::Pending);
    assert_eq!(step.expected_outcome_description, "all green");
    assert_eq!(step.actual_outcome_description, None);
    assert_eq!(step.execution_attempts, 0);
    assert_eq!(step.created_at, step.updated_at);
    assert!(step.depends_on_step_ids.is_empty());
    assert_eq!(step.output_parameters, None);
    assert_eq!(step.properties, None);
    let fixed =
        OperationalStep::new_at(s("o"), s("p"), s("d"), s("e"), None, None, Some(s("ask")), at(2));
    assert_eq!(fixed.id, "o");
    assert_eq!(fixed.human_action_description, Some(s("ask")));
    assert_eq!(fixed.updated_at, at(2));
}

#[test]
fn new_feedback_has_nothing_optional() {
    let entry = FeedbackEntry::new(
        s("s1"),
        Some(s("u1")),
        FeedbackSource::ExplicitUI,
        JsonValue::unsigned(1),
    );
    assert_eq!(entry.feedback_id.chars().count(), 36);
    assert_eq!(entry.session_id, "s1");
    assert_eq!(entry.user_id, Some(s("u1")));
    assert_eq!(entry.related_trace_id, None);
    assert_eq!(entry.related_log_id, None);
    assert_eq!(entry.source, FeedbackSource::ExplicitUI);
    assert_eq!(entry.user_rating_stars, None);
    assert_eq!(entry.correction_suggestion_text, None);
    assert!(!entry.is_error_report);
    assert!(entry.custom_tags.is_empty());
    assert_eq!(entry.feedback_data, JsonValue::unsigned(1));
}

#[test]
fn feedback_builders_set_one_field_each() {
    let entry = feedback("f", "s", 1)
        .with_related_trace_id(s("t9"))
        .with_rating_stars(4)
        .with_correction(s("use tabs"))
        .as_error_report(true)
        .add_tag(s("planning_issue"))
        .add_tag(s("tool_A_failed"));
    assert_eq!(entry.feedback_id, "f");
    assert_eq!(entry.session_id, "s");
    assert_eq!(entry.timestamp, at(1));
    assert_eq!(entry.related_trace_id, Some(s("t9")));
    assert_eq!(entry.user_rating_stars, Some(4));
    assert_eq!(entry.correction_suggestion_text, Some(s("use tabs")));
    assert!(entry.is_error_report);
    assert_eq!(entry.custom_tags, vec![s("planning_issue"), s("tool_A_failed")]);
    assert_eq!(entry.feedback_data, JsonValue::string("f"));
    assert!(!entry.as_error_report(false).is_error_report);
}

#[test]
fn rating_is_brought_into_range() {
    assert_eq!(feedback("f", "s", 1).with_rating_stars(0).user_rating_stars, Some(1));
    assert_eq!(feedback("f", "s", 1).with_rating_stars(1).user_rating_stars, Some(1));
    assert_eq!(feedback("f", "s", 1).with_rating_stars(3).user_rating_stars, Some(3));
    assert_eq!(feedback("f", "s", 1).with_rating_stars(5).user_rating_stars, Some(5));
    assert_eq!(feedback("f", "s", 1).with_rating_stars(6).user_rating_stars, Some(5));
    assert_eq!(feedback("f", "s", 1).with_rating_stars(255).user_rating_stars, Some(5));
}

#[test]
fn feedback_is_found_by_id() {
    let mut store = InMemoryFeedbackStore::new();
    assert_eq!(store.get_feedback_by_id("a").unwrap().map(|e| e.feedback_id), None);
    assert_eq!(store.store_feedback(feedback("a", "s1", 10).add_tag(s("x"))), Ok(()));
    let found = store.get_feedback_by_id("a").unwrap().unwrap();
    assert_eq!(found.feedback_id, "a");
    assert_eq!(found.session_id, "s1");
    assert_eq!(found.timestamp, at(10));
    assert_eq!(found.custom_tags, vec![s("x")]);
    assert_eq!(found.feedback_data, JsonValue::string("a"));
    assert!(store.get_feedback_by_id("b").unwrap().is_none());
}

#[test]
fn storing_again_replaces() {
    let mut store = InMemoryFeedbackStore::default();
    store.store_feedback(feedback("a", "s1", 10)).unwrap();
    store.store_feedback(feedback("a", "s2", 20)).unwrap();
    let found = store.get_feedback_by_id("a").unwrap().unwrap();
    assert_eq!(found.session_id, "s2");
    assert!(store.get_feedback_for_session("s1", None).unwrap().is_empty());
    assert_eq!(feedback_ids(&store.get_feedback_for_session("s2", None).unwrap()), vec!["a"]);
}

#[test]
fn session_feedback_comes_newest_first() {
    let mut store = InMemoryFeedbackStore::new();
    store.store_feedback(feedback("a", "s1", 10)).unwrap();
    store.store_feedback(feedback("b", "s1", 30)).unwrap();
    store.store_feedback(feedback("x", "s2", 25)).unwrap();
    store.store_feedback(feedback("c", "s1", 20)).unwrap();
    store.store_feedback(feedback("d", "s1", 5)).unwrap();
    let all = store.get_feedback_for_session("s1", None).unwrap();
    assert_eq!(feedback_ids(&all), vec!["b", "c", "a", "d"]);
    assert_eq!(feedback_ids(&store.get_feedback_for_session("s2", None).unwrap()), vec!["x"]);
    assert!(store.get_feedback_for_session("s3", None).unwrap().is_empty());
}

#[test]
fn session_feedback_is_cut_at_the_limit() {
    let mut store = InMemoryFeedbackStore::new();
    for (id, secs) in [("a", 10), ("b", 30), ("c", 20), ("d", 5)] {
        store.store_feedback(feedback(id, "s1", secs)).unwrap();
    }
    assert!(store.get_feedback_for_session("s1", Some(0)).unwrap().is_empty());
    assert_eq!(feedback_ids(&store.get_feedback_for_session("s1", Some(1)).unwrap()), vec!["b"]);
    assert_eq!(
        feedback_ids(&store.get_feedback_for_session("s1", Some(3)).unwrap()),
        vec!["b", "c", "a"]
    );
    assert_eq!(
        feedback_ids(&store.get_feedback_for_session("s1", Some(4)).unwrap()),
        vec!["b", "c", "a", "d"]
    );
    assert_eq!(
        feedback_ids(&store.get_feedback_for_session("s1", Some(usize::MAX)).unwrap()),
        vec!["b", "c", "a", "d"]
    );
}

#[test]
fn session_feedback_orders_by_nanoseconds_too() {
    let mut store = InMemoryFeedbackStore::new();
    let mut early = feedback("early", "s", 10);
    early.timestamp = Timestamp { secs: 10, nanos: 1 };
    let mut late = feedback("late", "s", 10);
    late.timestamp = Timestamp { secs: 10, nanos: 2 };
    store.store_feedback(early).unwrap();
    store.store_feedback(late).unwrap();
    assert_eq!(
        feedback_ids(&store.get_feedback_for_session("s", None).unwrap()),
        vec!["late", "early"]
    );
}

#[test]
fn feedback_is_found_by_trace() {
    let mut store = InMemoryFeedbackStore::new();
    store.store_feedback(feedback("a", "s1", 1).with_related_trace_id(s("t1"))).unwrap();
    store.store_feedback(feedback("b", "s1", 2)).unwrap();
    store.store_feedback(feedback("c", "s2", 3).with_related_trace_id(s("t1"))).unwrap();
    store.store_feedback(feedback("d", "s2", 4).with_related_trace_id(s("t2"))).unwrap();
    let mut found = feedback_ids(&store.get_feedback_by_trace_id("t1").unwrap());
    found.sort();
    assert_eq!(found, vec!["a", "c"]);
    assert_eq!(feedback_ids(&store.get_feedback_by_trace_id("t2").unwrap()), vec!["d"]);
    assert!(store.get_feedback_by_trace_id("t3").unwrap().is_empty());
    assert!(store.get_feedback_by_trace_id("").unwrap().is_empty());
}

#[test]
fn new_variant_is_active_version_one() {
    let v = PromptVariant::new(s("SystemPrompt_Main"), s("You are..."), Some(s("me")));
    assert_eq!(v.variant_id.chars().count(), 36);
    assert_eq!(v.prompt_type_key, "SystemPrompt_Main");
    assert_eq!(v.template_text, "You are...");
    assert_eq!(v.description, None);
    assert_eq!(v.version, 1);
    assert_eq!(v.author_id, Some(s("me")));
    assert_eq!(v.last_used_date, None);
    assert_eq!(v.performance_metrics.len(), 0);
    assert_eq!(v.experiment_group, None);
    assert!(v.is_active);
    assert_eq!(v.deprecation_date, None);
    assert!(v.is_selectable());
}

#[test]
fn active_variant_has_the_highest_version() {
    let mut provider = InMemoryPromptVariantProvider::new();
    assert!(provider.get_active_variant("k").unwrap().is_none());
    provider.store_variant(&variant("v1", "k", 1)).unwrap();
    provider.store_variant(&variant("v3", "k", 3)).unwrap();
    provider.store_variant(&variant("v2", "k", 2)).unwrap();
    provider.store_variant(&variant("o9", "other", 9)).unwrap();
    assert_eq!(provider.get_active_variant("k").unwrap().unwrap().variant_id, "v3");
    assert_eq!(provider.get_active_variant("other").unwrap().unwrap().variant_id, "o9");
    assert!(provider.get_active_variant("none").unwrap().is_none());
}

#[test]
fn inactive_and_deprecated_variants_are_not_picked() {
    let mut provider = InMemoryPromptVariantProvider::new();
    let mut inactive = variant("v9", "k", 9);
    inactive.is_active = false;
    let mut deprecated = variant("v8", "k", 8);
    deprecated.deprecation_date = Some(at(50));
    provider.store_variant(&inactive).unwrap();
    provider.store_variant(&deprecated).unwrap();
    assert!(provider.get_active_variant("k").unwrap().is_none());
    provider.store_variant(&variant("v0", "k", 0)).unwrap();
    assert_eq!(provider.get_active_variant("k").unwrap().unwrap().variant_id, "v0");
    provider.store_variant(&variant("v2", "k", 2)).unwrap();
    assert_eq!(provider.get_active_variant("k").unwrap().unwrap().variant_id, "v2");
    assert!(!inactive.is_selectable());
    assert!(!deprecated.is_selectable());
}

#[test]
fn variants_are_listed_by_type() {
    let mut provider = InMemoryPromptVariantProvider::default();
    let mut inactive = variant("b", "k", 2);
    inactive.is_active = false;
    let mut deprecated = variant("c", "k", 3);
    deprecated.deprecation_date = Some(at(50));
    provider.store_variant(&variant("a", "k", 1)).unwrap();
    provider.store_variant(&inactive).unwrap();
    provider.store_variant(&deprecated).unwrap();
    provider.store_variant(&variant("d", "other", 1)).unwrap();
    assert_eq!(variant_ids(&provider.list_variants_for_type("k", true).unwrap()), vec!["a", "b", "c"]);
    assert_eq!(variant_ids(&provider.list_variants_for_type("k", false).unwrap()), vec!["a"]);
    assert_eq!(variant_ids(&provider.list_variants_for_type("other", false).unwrap()), vec!["d"]);
    assert!(provider.list_variants_for_type("none", true).unwrap().is_empty());
}

#[test]
fn stored_variant_is_a_copy_and_replaces() {
    let mut provider = InMemoryPromptVariantProvider::new();
    let mut v = variant("a", "k", 1);
    provider.store_variant(&v).unwrap();
    v.template_text = s("changed");
    assert_eq!(provider.get_variant_by_id("a").unwrap().unwrap().template_text, "template");
    provider.store_variant(&v).unwrap();
    assert_eq!(provider.get_variant_by_id("a").unwrap().unwrap().template_text, "changed");
    assert_eq!(provider.list_variants_for_type("k", true).unwrap().len(), 1);
    assert!(provider.get_variant_by_id("b").unwrap().is_none());
}

#[test]
fn metrics_are_merged_and_the_use_is_stamped() {
    let mut provider = InMemoryPromptVariantProvider::new();
    provider.store_variant(&variant("a", "k", 1)).unwrap();
    provider.store_variant(&variant("b", "k", 2)).unwrap();
    let rate = JsonValue::Number(JsonNumber::Real(0.75f64.to_bits()));
    let count = JsonValue::Number(JsonNumber::Real(1.0f64.to_bits()));
    let mut update = JsonObject::new();
    update.insert(s("success_rate"), rate.clone());
    update.insert(s("execution_count"), count.clone());
    assert_eq!(provider.update_variant_metrics_at("a", update, at(77)), Ok(()));
    let found = provider.get_variant_by_id("a").unwrap().unwrap();
    assert_eq!(found.performance_metrics.get("success_rate"), Some(&rate));
    assert_eq!(found.performance_metrics.get("execution_count"), Some(&count));
    assert_eq!(found.last_used_date, Some(at(77)));
    assert_eq!(found.version, 1);
    assert_eq!(found.creation_date, at(1));
    let two = JsonValue::Number(JsonNumber::Real(2.0f64.to_bits()));
    let mut update = JsonObject::new();
    update.insert(s("execution_count"), two.clone());
    assert_eq!(provider.update_variant_metrics("a", update), Ok(()));
    let found = provider.get_variant_by_id("a").unwrap().unwrap();
    assert_eq!(found.performance_metrics.get("success_rate"), Some(&rate));
    assert_eq!(found.performance_metrics.get("execution_count"), Some(&two));
    assert_eq!(found.performance_metrics.len(), 2);
    assert!(found.last_used_date.is_some());
    let other = provider.get_variant_by_id("b").unwrap().unwrap();
    assert_eq!(other.performance_metrics.len(), 0);
    assert_eq!(other.last_used_date, None);
}

#[test]
fn two_metric_updates_on_a_stored_variant_both_succeed() {
    let mut provider = InMemoryPromptVariantProvider::new();
    let v = PromptVariant::new(s("K"), s("T"), None);
    assert_eq!(provider.store_variant(&v), Ok(()));
    let one = JsonValue::Number(JsonNumber::Real(1.0f64.to_bits()));
    let two = JsonValue::Number(JsonNumber::Real(2.0f64.to_bits()));
    let mut first = JsonObject::new();
    first.insert(s("a"), one.clone());
    let mut second = JsonObject::new();
    second.insert(s("b"), two.clone());
    assert_eq!(provider.update_variant_metrics(&v.variant_id, first), Ok(()));
    assert_eq!(provider.update_variant_metrics(&v.variant_id, second), Ok(()));
    let found = provider.get_variant_by_id(&v.variant_id).unwrap().unwrap();
    let mut expected = JsonObject::new();
    expected.insert(s("a"), one);
    expected.insert(s("b"), two);
    assert_eq!(found.performance_metrics, expected);
    assert!(!found.performance_metrics.contains_key("execution_count"));
    assert!(found.last_used_date.is_some());
}

#[test]
fn metrics_for_an_unknown_variant_are_not_found() {
    let mut provider = InMemoryPromptVariantProvider::new();
    provider.store_variant(&variant("a", "k", 1)).unwrap();
    assert_eq!(provider.update_variant_metrics("zzz", JsonObject::new()), Err(KbError::NotFound));
    assert_eq!(
        provider.update_variant_metrics_at("zzz", JsonObject::new(), at(1)),
        Err(KbError::NotFound)
    );
    assert_eq!(provider.get_variant_by_id("a").unwrap().unwrap().last_used_date, None);
}

#[test]
fn new_trace_has_nothing_optional() {
    let trace = ReasoningTrace::new(
        s("s1"),
        Some(s("parent")),
        DecisionType::ToolSelection,
        JsonValue::string("in"),
        JsonValue::string("chosen"),
    );
    assert_eq!(trace.trace_id.chars().count(), 36);
    assert_eq!(trace.session_id, "s1");
    assert_eq!(trace.parent_trace_id, Some(s("parent")));
    assert_eq!(trace.decision_type, DecisionType::ToolSelection);
    assert_eq!(trace.inputs, JsonValue::string("in"));
    assert_eq!(trace.alternatives_considered, None);
    assert_eq!(trace.selected_alternative, JsonValue::string("chosen"));
    assert_eq!(trace.justification_llm_response, None);
    assert_eq!(trace.confidence_score_llm_self_assessed, None);
    assert_eq!(trace.confidence_score_derived, None);
    assert_eq!(trace.outcome, None);
    assert_eq!(trace.duration_ms, None);
}

#[test]
fn trace_builders_set_one_field_each() {
    let trace = ReasoningTrace::new_at(
        s("t"),
        s("s"),
        None,
        DecisionType::PlanGeneration,
        JsonValue::Null,
        JsonValue::Bool(true),
        at(4),
    )
    .with_alternatives(JsonValue::Array(vec![JsonValue::unsigned(1)]))
    .with_justification(s("because"))
    .with_llm_confidence(0.5f32.to_bits())
    .with_derived_confidence(0.25f32.to_bits())
    .with_outcome(JsonValue::string("done"))
    .with_duration(1500);
    assert_eq!(trace.trace_id, "t");
    assert_eq!(trace.session_id, "s");
    assert_eq!(trace.timestamp, at(4));
    assert_eq!(trace.decision_type, DecisionType::PlanGeneration);
    assert_eq!(trace.inputs, JsonValue::Null);
    assert_eq!(trace.selected_alternative, JsonValue::Bool(true));
    assert_eq!(
        trace.alternatives_considered,
        Some(JsonValue::Array(vec![JsonValue::unsigned(1)]))
    );
    assert_eq!(trace.justification_llm_response, Some(s("because")));
    assert_eq!(trace.confidence_score_llm_self_assessed.map(f32::from_bits), Some(0.5));
    assert_eq!(trace.confidence_score_derived.map(f32::from_bits), Some(0.25));
    assert_eq!(trace.outcome, Some(JsonValue::string("done")));
    assert_eq!(trace.duration_ms, Some(1500));
}

#[test]
fn emitter_keeps_traces_in_order() {
    let mut emitter = InMemoryTraceEmitter::new();
    assert!(emitter.get_traces().is_empty());
    for id in ["t1", "t2", "t3"] {
        let trace = ReasoningTrace::new_at(
            s(id),
            s("s"),
            None,
            DecisionType::SessionStart,
            JsonValue::Null,
            JsonValue::string(id),
            at(1),
        );
        assert_eq!(emitter.emit_trace(trace), Ok(()));
    }
    let traces = emitter.get_traces();
    let ids: Vec<String> = traces.iter().map(|t| t.trace_id.clone()).collect();
    assert_eq!(ids, vec!["t1", "t2", "t3"]);
    assert_eq!(traces[1].selected_alternative, JsonValue::string("t2"));
    assert_eq!(emitter.get_traces().len(), 3);
    assert!(InMemoryTraceEmitter::default().get_traces().is_empty());
}
