use vstd::prelude::*;

verus! {

/// A model provider as stored in the database.
pub struct Provider {
    pub id: i64,
    pub name: String,
    pub base_url: String,
    pub api_key_env: String,
    pub proxy_mode: String,
    pub proxy_url: Option<String>,
    pub auth_header: Option<String>,
    pub api_key_value: Option<String>,
    pub billing_type: String,
    pub is_active: bool,
    pub compress_enabled: bool,
    pub created_at: String,
    pub updated_at: String,
}

/// The fields of a new provider.
pub struct CreateProvider {
    pub name: String,
    pub base_url: String,
    pub api_key_env: String,
    pub proxy_mode: Option<String>,
    pub proxy_url: Option<String>,
    pub auth_header: Option<String>,
    pub api_key_value: Option<String>,
    pub billing_type: Option<String>,
    pub compress_enabled: Option<bool>,
}

/// The fields to change on a provider; absent fields stay as they are.
pub struct UpdateProvider {
    pub name: Option<String>,
    pub base_url: Option<String>,
    pub api_key_env: Option<String>,
    pub proxy_mode: Option<String>,
    pub proxy_url: Option<String>,
    pub auth_header: Option<String>,
    pub api_key_value: Option<String>,
    pub billing_type: Option<String>,
    pub is_active: Option<bool>,
    pub compress_enabled: Option<bool>,
}

/// A model offered by a provider, as stored in the database.  `auth_type`
/// holds a JSON array of protocol names, or one bare name in older rows.
pub struct Model {
    pub id: i64,
    pub provider_id: i64,
    pub model_id: String,
    pub display_name: Option<String>,
    pub auth_type: String,
    pub is_default: bool,
    pub config_json: Option<String>,
    pub created_at: String,
}

/// The fields of a new model.
pub struct CreateModel {
    pub provider_id: i64,
    pub model_id: String,
    pub display_name: Option<String>,
    pub auth_type: String,
    pub is_default: Option<bool>,
    pub config_json: Option<String>,
}

/// The fields to change on a model; absent fields stay as they are.
pub struct UpdateModel {
    pub display_name: Option<String>,
    pub auth_type: Option<String>,
    pub is_default: Option<bool>,
    pub config_json: Option<String>,
}

/// Everything the proxy needs to send a request for a model: the model row
/// joined with its provider.
#[derive(Clone, Debug)]
pub struct ModelRoute {
    pub model_db_id: i64,
    pub model_id: String,
    pub auth_type: String,
    pub is_default: bool,
    pub config_json: Option<String>,
    pub provider_id: i64,
    pub provider_name: String,
    pub base_url: String,
    pub api_key_env: String,
    pub proxy_mode: String,
    pub proxy_url: Option<String>,
    pub auth_header: Option<String>,
    pub billing_type: String,
    pub compress_enabled: bool,
}

/// The file name of the database inside the application data directory.
pub fn db_file_name() -> (r: &'static str)
    ensures
        r@ == "agentbox.db"@,
{
    "agentbox.db"
}

/// Path of the database file: `agentbox.db` inside the application data
/// directory.
pub fn db_path(app_data_dir: &str) -> (r: String)
    ensures
        r@ == crate::paths::joined_path(app_data_dir@, "agentbox.db"@),
{
    crate::paths::join_path(app_data_dir, db_file_name())
}

} // verus!
