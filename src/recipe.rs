//! Data model of recipes and of the changes that the optimiser proposes.
use vstd::prelude::*;

verus! {

/// A nutrient whose share can be set as an optimisation target.
#[derive(Clone, Copy, Debug, PartialEq, Eq, Hash)]
pub enum OptimizableNutrient {
    Carb,
    Fat,
    Protein,
}

/// The lower-case form of a text, as `str::to_lowercase` gives it.
pub uninterp spec fn lower_of(s: Seq<char>) -> Seq<char>;

/// Relies on `str::to_lowercase`: its result depends on the characters alone.
#[verifier::external_body]
fn lowercase(s: &str) -> (r: String)
    ensures
        r@ == lower_of(s@),
{
    s.to_lowercase()
}

/// The nutrient that a lower-case name denotes.
pub open spec fn nutrient_named(t: Seq<char>) -> Option<OptimizableNutrient> {
    if t == "carb"@ || t == "carbohydrate"@ || t == "carbohydrates"@ {
        Some(OptimizableNutrient::Carb)
    } else if t == "fat"@ || t == "fats"@ {
        Some(OptimizableNutrient::Fat)
    } else if t == "protein"@ || t == "proteins"@ {
        Some(OptimizableNutrient::Protein)
    } else {
        None
    }
}

/// The message for a name that denotes no nutrient.
pub open spec fn unknown_nutrient_message(s: Seq<char>) -> Seq<char> {
    "Unknown nutrient for --optimize: '"@ + s + "'. Supported: carb, fat, protein."@
}

/// The nutrient that the lower-case name `t` denotes, if any.
pub fn nutrient_of_lowercase(t: &String) -> (r: Option<OptimizableNutrient>)
    ensures
        r == nutrient_named(t@),
{
    if *t == String::from_str("carb") || *t == String::from_str("carbohydrate") || *t
        == String::from_str("carbohydrates") {
        Some(OptimizableNutrient::Carb)
    } else if *t == String::from_str("fat") || *t == String::from_str("fats") {
        Some(OptimizableNutrient::Fat)
    } else if *t == String::from_str("protein") || *t == String::from_str("proteins") {
        Some(OptimizableNutrient::Protein)
    } else {
        None
    }
}

impl OptimizableNutrient {
    /// Reads a nutrient name in any letter case: carb, carbohydrate(s),
    /// fat(s) or protein(s).
    pub fn from_str(s: &str) -> (r: Result<Self, String>)
        ensures
            match r {
                Ok(n) => nutrient_named(lower_of(s@)) == Some(n),
                Err(m) => nutrient_named(lower_of(s@)).is_none() && m@ == unknown_nutrient_message(
                    s@,
                ),
            },
    {
        let lower = lowercase(s);
        match nutrient_of_lowercase(&lower) {
            Some(n) => Ok(n),
            None => {
                let m = String::from_str("Unknown nutrient for --optimize: '");
                let m = m.concat(s);
                Err(m.concat("'. Supported: carb, fat, protein."))
            },
        }
    }
}

/// One ingredient line of a recipe, split into its parts.
#[derive(Clone, Debug)]
pub struct ParsedIngredient {
    pub raw_text: String,
    pub ingredient_name: String,
    pub quantity: String,
    pub unit: String,
    pub preparation_notes: String,
}

/// A recipe as read from free text.
#[derive(Clone, Debug)]
pub struct ParsedRecipe {
    pub recipe_title: String,
    pub ingredients: Vec<ParsedIngredient>,
    pub instructions: Vec<String>,
}

/// The kind of change proposed for a recipe.
#[derive(Clone, Copy, Debug, PartialEq, Eq)]
pub enum LlmOperationType {
    ReplaceIngredient,
    AdjustQuantity,
    AddIngredient,
    RemoveIngredient,
    NoChange,
}

/// One proposed change to a recipe.
#[derive(Clone, Debug)]
pub struct LlmRecipeModification {
    pub operation: LlmOperationType,
    pub original_ingredient_name: Option<String>,
    pub replacement_description: Option<String>,
    pub new_ingredient_name: Option<String>,
    pub quantity_raw: Option<String>,
    pub unit_raw: Option<String>,
    pub preparation_notes: Option<String>,
    pub reasoning: Option<String>,
}

impl Default for LlmRecipeModification {
    /// No change, with every detail absent.
    fn default() -> (r: Self)
        ensures
            r.operation == LlmOperationType::NoChange,
            r.original_ingredient_name.is_none(),
            r.replacement_description.is_none(),
            r.new_ingredient_name.is_none(),
            r.quantity_raw.is_none(),
            r.unit_raw.is_none(),
            r.preparation_notes.is_none(),
            r.reasoning.is_none(),
    {
        LlmRecipeModification {
            operation: LlmOperationType::NoChange,
            original_ingredient_name: None,
            replacement_description: None,
            new_ingredient_name: None,
            quantity_raw: None,
            unit_raw: None,
            preparation_notes: None,
            reasoning: None,
        }
    }
}

/// The changes proposed for a recipe, and why.
#[derive(Clone, Debug)]
pub struct LlmModificationResponse {
    pub modifications: Vec<LlmRecipeModification>,
    pub overall_reasoning: String,
}

} // verus!
