//! Data model of the chat-completion API that the recipe tools talk to.
use vstd::prelude::*;
use std::collections::HashMap;

verus! {

/// A model that the provider serves, and the upstream source that runs it.
#[derive(Clone, Copy, Debug, PartialEq, Eq)]
pub struct OpenRouterAvailableModel {
    pub model_name: &'static str,
    pub model_source: &'static str,
}

/// A chat-completion provider and its settings.
#[derive(Clone, Debug)]
pub enum Provider {
    OpenRouter {
        /// Name of the environment variable that holds the API key.
        api_key: String,
        available_models: Vec<OpenRouterAvailableModel>,
    },
}

/// The models offered through OpenRouter.
pub fn openrouter_models() -> (r: Vec<OpenRouterAvailableModel>)
    ensures
        r@.len() == 1,
        r@[0].model_name@ == "qwen/qwen3-32b"@,
        r@[0].model_source@ == "cerebras"@,
{
    let mut r: Vec<OpenRouterAvailableModel> = Vec::new();
    r.push(OpenRouterAvailableModel { model_name: "qwen/qwen3-32b", model_source: "cerebras" });
    r
}

impl Provider {
    /// The OpenRouter provider, reading its key from the environment variable
    /// named `api_key_env_var_name`, with the models it offers.
    pub fn openrouter(api_key_env_var_name: &str) -> (r: Self)
        ensures
            match r {
                Provider::OpenRouter { api_key, available_models } => {
                    &&& api_key@ == api_key_env_var_name@
                    &&& available_models@.len() == 1
                    &&& available_models@[0].model_name@ == "qwen/qwen3-32b"@
                    &&& available_models@[0].model_source@ == "cerebras"@
                },
            },
    {
        Provider::OpenRouter {
            api_key: String::from_str(api_key_env_var_name),
            available_models: openrouter_models(),
        }
    }

    /// The models that the provider offers.
    pub fn get_available_models(&self) -> (r: Vec<OpenRouterAvailableModel>)
        ensures
            match self {
                Provider::OpenRouter { available_models, .. } => r@ == available_models@,
            },
    {
        match self {
            Provider::OpenRouter { available_models, .. } => {
                let mut r: Vec<OpenRouterAvailableModel> = Vec::new();
                let mut i: usize = 0;
                while i < available_models.len()
                    invariant
                        0 <= i <= available_models@.len(),
                        r@ == available_models@.take(i as int),
                    decreases available_models.len() - i,
                {
                    r.push(available_models[i]);
                    proof {
                        assert(available_models@.take(i + 1) =~= available_models@.take(i as int).push(
                            available_models@[i as int],
                        ));
                    }
                    i = i + 1;
                }
                assert(available_models@.take(available_models@.len() as int) =~= available_models@);
                r
            },
        }
    }
}

/// One message of a conversation.
#[derive(Clone, Debug)]
pub struct ChatMessage {
    pub role: String,
    pub content: String,
}

/// A property of a JSON schema.
#[derive(Clone, Debug)]
pub struct JsonSchemaProperty {
    /// The JSON type of the property.
    pub property_type: String,
    pub description: Option<String>,
    /// The values allowed, when the property is an enumeration.
    pub enum_values: Option<Vec<String>>,
}

/// A JSON schema of an object.
#[derive(Clone, Debug)]
pub struct JsonSchema {
    /// The JSON type of the schema.
    pub schema_type: String,
    pub properties: Option<HashMap<String, JsonSchemaProperty>>,
    pub required: Option<Vec<String>>,
    pub additional_properties: Option<bool>,
}

/// A named JSON schema that a structured answer must follow.
#[derive(Clone, Debug)]
pub struct JsonSchemaDefinition {
    pub name: String,
    pub strict: Option<bool>,
    pub schema: JsonSchema,
}

/// The format that the answer must take.
#[derive(Clone, Debug)]
pub struct ResponseFormat {
    /// The kind of format.
    pub format_type: String,
    pub json_schema: Option<JsonSchemaDefinition>,
}

/// The message of one answer.
#[derive(Clone, Debug)]
pub struct ChatCompletionResponseMessage {
    pub role: String,
    pub content: String,
}

/// One answer of a completion.
#[derive(Clone, Debug)]
pub struct ChatCompletionChoice {
    pub message: ChatCompletionResponseMessage,
    pub finish_reason: Option<String>,
    pub index: u32,
}

/// Token counts of a completion.
#[derive(Clone, Debug)]
pub struct ChatCompletionUsage {
    pub prompt_tokens: u32,
    pub completion_tokens: Option<u32>,
    pub total_tokens: u32,
}

/// A completion, as the API returns it.
#[derive(Clone, Debug)]
pub struct ChatCompletionResponse {
    pub id: String,
    pub object: Option<String>,
    pub created: u64,
    pub model: String,
    pub choices: Vec<ChatCompletionChoice>,
    pub usage: Option<ChatCompletionUsage>,
}

} // verus!
