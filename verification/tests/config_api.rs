use single_flight::config::Config;
use single_flight::config::ConfigFile;
use single_flight::config::PostPayload;
use single_flight::config::ServiceConfig;
use single_flight::config::ServicesConfig;
use single_flight::outcome::status_for_outcome;
use single_flight::outcome::PipelineOutcome;
use single_flight::retry::RetryDecision;
use single_flight::retry::RetryPolicy;

fn service(label: &str, container: &str, image: &str) -> ServiceConfig {
    ServiceConfig {
        name: None,
        service_label: label.to_string(),
        container_name: container.to_string(),
        image: image.to_string(),
    }
}

#[test]
fn services_file_name() {
    assert_eq!(ConfigFile::Services.file_name(), "services.toml");
    assert_eq!(ServicesConfig::file(), ConfigFile::Services);
}

#[test]
fn services_file_path_respects_config_dir() {
    let path = ConfigFile::Services.path("/var/config/update");
    assert_eq!(path, "/var/config/update/services.toml");
}

#[test]
fn find_service_by_label() {
    let services = ServicesConfig {
        services: vec![
            service("svc-a", "container-a", "registry.example.com/a:latest"),
            service("svc-b", "container-b", "registry.example.com/b:latest"),
        ],
    };
    let found = services.find_service(&"svc-b".to_string()).expect("svc-b exists");
    assert_eq!(found.container_name, "container-b");
    assert_eq!(found.image, "registry.example.com/b:latest");
}

#[test]
fn find_service_misses_unknown_label() {
    let services = ServicesConfig {
        services: vec![service("svc-a", "container-a", "image-a")],
    };
    let payload = PostPayload { service_label: "svc-z".to_string() };
    assert!(services.find_service(&payload.service_label).is_none());
}

#[test]
fn find_service_takes_the_first_match() {
    let services = ServicesConfig {
        services: vec![
            service("svc-a", "first", "image-1"),
            service("svc-a", "second", "image-2"),
        ],
    };
    let found = services.find_service(&"svc-a".to_string()).expect("svc-a exists");
    assert_eq!(found.container_name, "first");
}

#[test]
fn standard_policy_allows_three_attempts() {
    let policy = RetryPolicy::standard();
    assert_eq!(policy.max_attempts, 3);
    assert_eq!(policy.decide(1), RetryDecision::Retry(0));
    assert_eq!(policy.decide(2), RetryDecision::Retry(0));
    assert_eq!(policy.decide(3), RetryDecision::GiveUp);
}

#[test]
fn single_attempt_policy_gives_up_at_once() {
    let policy = RetryPolicy { max_attempts: 1, delay_ms: 250 };
    assert_eq!(policy.decide(1), RetryDecision::GiveUp);
}

#[test]
fn outcome_maps_to_response_status() {
    assert_eq!(status_for_outcome(&PipelineOutcome::Succeeded), 200);
    assert_eq!(status_for_outcome(&PipelineOutcome::Superseded), 200);
    assert_eq!(
        status_for_outcome(&PipelineOutcome::Failed("image not found".to_string())),
        500
    );
}
