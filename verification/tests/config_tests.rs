use appconfig::config::generate_jwt_secret;
use appconfig::config::BaseConfig;
use appconfig::config::Config;
use appconfig::errors::AppConfigError;
use appconfig::mutations::MutationError;
use appconfig::source::DataSource;
use appconfig::support::InputError;
use appconfig::table::KvTable;
use appconfig::users::UserMutationError;
use appconfig::workspaces::WorkspaceMutationError;

fn no_env() -> KvTable<String> {
    KvTable::new()
}

#[test]
fn jwt_secret_generation() {
    assert_eq!(generate_jwt_secret(), "token");
}

#[test]
fn base_config_builds_from_env_over_nop_source() {
    let mut ds = DataSource::nop();
    let mut env = no_env();
    env.set("DATABASE_URL", "postgres://localhost/app".to_string());

    let base = BaseConfig::build(&mut ds, None, &env).unwrap();
    assert_eq!(base.bind_addr, "0.0.0.0:8000");
    assert_eq!(base.database_url, "postgres://localhost/app");
    // the no-op adapter kept nothing
    assert!(ds.get("DATABASE_URL").unwrap().is_none());
}

#[test]
fn base_config_requires_the_database_url() {
    let mut ds = DataSource::nop();

    let err = BaseConfig::build(&mut ds, None, &no_env()).unwrap_err();
    match err {
        AppConfigError::FieldNotSetError(name) => assert_eq!(name, "database_url"),
        _ => panic!("expected a field-not-set error"),
    }
}

#[test]
fn base_config_prefers_the_store() {
    let mut ds = DataSource::memory();
    ds.set("BIND_ADDR", "127.0.0.1:9000".to_string()).unwrap();
    let mut env = no_env();
    env.set("DATABASE_URL", "postgres://db/app".to_string());

    let base = BaseConfig::build(&mut ds, None, &env).unwrap();
    assert_eq!(base.bind_addr, "127.0.0.1:9000");
    // the environment-sourced value was mirrored into the store
    assert_eq!(ds.get("DATABASE_URL").unwrap().unwrap(), "postgres://db/app");
}

#[test]
fn config_builds_over_the_store_with_its_base_skipped() {
    let mut ds = DataSource::memory();
    ds.set("S3_BUCKET", "bucket".to_string()).unwrap();
    let mut env = no_env();
    env.set("S3_ENDPOINT", "http://s3.local".to_string());
    // content stored under the skip field's key is ignored
    ds.set("BASE", "ignored".to_string()).unwrap();
    let base = BaseConfig {
        bind_addr: "0.0.0.0:8000".to_string(),
        database_url: "postgres://db/app".to_string(),
    };

    let config = Config::build(&mut ds, None, &env, base).unwrap();
    assert_eq!(config.base.database_url, "postgres://db/app");
    assert_eq!(config.jwt_secret, "token");
    assert_eq!(config.s3_bucket, "bucket");
    assert_eq!(config.s3_endpoint, "http://s3.local");
    // every scalar was mirrored into the store
    assert_eq!(ds.get("JWT_SECRET").unwrap().unwrap(), "token");
    assert_eq!(ds.get("S3_ENDPOINT").unwrap().unwrap(), "http://s3.local");
}

#[test]
fn config_names_the_first_missing_field() {
    let mut ds = DataSource::memory();
    let base = BaseConfig {
        bind_addr: "0.0.0.0:8000".to_string(),
        database_url: "postgres://db/app".to_string(),
    };

    let err = Config::build(&mut ds, None, &no_env(), base).unwrap_err();
    match err {
        AppConfigError::FieldNotSetError(name) => assert_eq!(name, "s3_bucket"),
        _ => panic!("expected a field-not-set error"),
    }
}

#[test]
fn config_keeps_a_stored_secret() {
    let mut ds = DataSource::memory();
    ds.set("JWT_SECRET", "stored-secret".to_string()).unwrap();
    ds.set("S3_BUCKET", "bucket".to_string()).unwrap();
    ds.set("S3_ENDPOINT", "http://s3.local".to_string()).unwrap();
    let base = BaseConfig {
        bind_addr: "0.0.0.0:8000".to_string(),
        database_url: "postgres://db/app".to_string(),
    };

    let config = Config::build(&mut ds, None, &no_env(), base).unwrap();
    assert_eq!(config.jwt_secret, "stored-secret");
}

#[test]
fn engine_error_messages() {
    assert_eq!(
        AppConfigError::ParsingError("field4".to_string()).message(),
        "ParseError: field4"
    );
    assert_eq!(AppConfigError::DatastoreError.message(), "Datastore error");
    assert_eq!(
        AppConfigError::FieldNotSetError("field".to_string()).message(),
        "Field not set error: field"
    );
}

#[test]
fn mutation_error_messages_and_codes() {
    let dup = MutationError::UserAlreadyExists("username".to_string());
    assert_eq!(dup.message(), "A user with this username already exists");
    assert_eq!(dup.status_code(), 400);
    let other = MutationError::Default("lost connection".to_string());
    assert_eq!(other.message(), "unknown data store error: lost connection");
    assert_eq!(other.status_code(), 500);
}

#[test]
fn user_mutation_error_messages_and_codes() {
    let dup = UserMutationError::UserAlreadyExists("email".to_string());
    assert_eq!(dup.message(), "A user with this email already exists");
    assert_eq!(dup.status_code(), 400);
    assert_eq!(UserMutationError::UserNotFound.message(), "User not found");
    assert_eq!(UserMutationError::UserNotFound.status_code(), 404);
    assert_eq!(UserMutationError::InvalidPassword.message(), "Invalid password");
    assert_eq!(UserMutationError::InvalidPassword.status_code(), 400);
    assert_eq!(
        UserMutationError::Default("boom".to_string()).status_code(),
        500
    );
}

#[test]
fn workspace_mutation_error_messages_and_codes() {
    let generic = WorkspaceMutationError::DefaultError("boom".to_string());
    assert_eq!(generic.message(), "generic error: boom");
    assert_eq!(generic.status_code(), 500);
    let ext = WorkspaceMutationError::InvalidImageExtension("exe".to_string());
    assert_eq!(ext.message(), "Invalid image extension: exe");
    assert_eq!(ext.status_code(), 400);
}

#[test]
fn input_error_carries_its_field() {
    let e = InputError::new("name".to_string(), "Name is required".to_string());
    assert_eq!(e.field, "name");
    assert_eq!(e.message, "Name is required");
}
