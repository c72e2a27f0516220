//! Choosing a model for a task.
//!
//! The user has one setting. If it names a model, that model is used for
//! everything. If it is `auto`, tasks with tools go to the strong model, and
//! free conversation goes by the length and the words of the message.
use vstd::prelude::*;
use crate::chat::context::TaskType;
use crate::settings::Settings;
use crate::text::{contains, has_text, is_blank, same_text, trim, trim_text};

verus! {

/// The models of a provider.
pub struct ProviderPreset {
    pub flash_model: String,
    pub pro_model: String,
    pub thinking_model: Option<String>,
    pub max_output_tokens: u32,
}

/// A model and how to call it. The temperature is in hundredths.
pub struct ModelChoice {
    pub model: String,
    pub temperature_hundredths: u32,
    pub max_tokens: u32,
}

/// A choice as data.
pub struct ChoiceModel {
    pub model: Seq<char>,
    pub temperature: int,
    pub max_tokens: int,
}

impl View for ModelChoice {
    type V = ChoiceModel;

    open spec fn view(&self) -> ChoiceModel {
        ChoiceModel {
            model: self.model@,
            temperature: self.temperature_hundredths as int,
            max_tokens: self.max_tokens as int,
        }
    }
}

/// The fast model.
pub open spec fn flash_of(preset: ProviderPreset) -> ChoiceModel {
    ChoiceModel {
        model: preset.flash_model@,
        temperature: 30,
        max_tokens: preset.max_output_tokens as int,
    }
}

/// The strong model; with reasoning the one that thinks, if there is one.
pub open spec fn pro_of(preset: ProviderPreset, with_reasoning: bool) -> ChoiceModel {
    ChoiceModel {
        model: match preset.thinking_model {
            Some(t) => if with_reasoning {
                t@
            } else {
                preset.pro_model@
            },
            None => preset.pro_model@,
        },
        temperature: 15,
        max_tokens: preset.max_output_tokens as int,
    }
}

/// The model of a given name.
pub open spec fn forced_of(model: Seq<char>, preset: ProviderPreset) -> ChoiceModel {
    ChoiceModel {
        model,
        temperature: if contains(model, "pro"@) {
            15
        } else {
            30
        },
        max_tokens: preset.max_output_tokens as int,
    }
}

impl ModelChoice {
    /// The fast model.
    pub fn flash(preset: &ProviderPreset) -> (r: Self)
        ensures
            r@ == flash_of(*preset),
    {
        ModelChoice {
            model: preset.flash_model.clone(),
            temperature_hundredths: 30,
            max_tokens: preset.max_output_tokens,
        }
    }

    /// The strong model; with reasoning the one that thinks, if there is one.
    pub fn pro(preset: &ProviderPreset, with_reasoning: bool) -> (r: Self)
        ensures
            r@ == pro_of(*preset, with_reasoning),
    {
        let model = match &preset.thinking_model {
            Some(t) => if with_reasoning {
                t.clone()
            } else {
                preset.pro_model.clone()
            },
            None => preset.pro_model.clone(),
        };
        ModelChoice { model, temperature_hundredths: 15, max_tokens: preset.max_output_tokens }
    }

    /// The model that the user named.
    pub fn from_forced(model: &str, preset: &ProviderPreset) -> (r: Self)
        ensures
            r@ == forced_of(model@, *preset),
    {
        let temperature_hundredths: u32 = if has_text(model, "pro") {
            15
        } else {
            30
        };
        ModelChoice {
            model: String::from_str(model),
            temperature_hundredths,
            max_tokens: preset.max_output_tokens,
        }
    }
}

/// A message asks for reasoning.
pub open spec fn asks_for_reasoning(msg: Seq<char>) -> bool {
    ||| contains(msg, "建议"@)
    ||| contains(msg, "分析"@)
    ||| contains(msg, "为什么"@)
    ||| contains(msg, "怎么办"@)
    ||| contains(msg, "如何"@)
    ||| contains(msg, "拒执"@)
    ||| contains(msg, "风险"@)
    ||| contains(msg, "怎么处理"@)
    ||| contains(msg, "策略"@)
    ||| contains(msg, "对比"@)
    ||| contains(msg, "评估"@)
    ||| contains(msg, "推理"@)
}

/// The model for a message of a free conversation.
pub open spec fn free_chat_of(msg: Seq<char>, preset: ProviderPreset) -> ChoiceModel {
    if msg.len() >= 30 && asks_for_reasoning(msg) {
        pro_of(preset, false)
    } else {
        flash_of(preset)
    }
}

/// The model for a message of a free conversation: the strong one for a message
/// of thirty characters or more that asks for reasoning, otherwise the fast
/// one.
pub fn route_free_chat(msg: &str, preset: &ProviderPreset) -> (r: ModelChoice)
    ensures
        r@ == free_chat_of(msg@, *preset),
{
    if msg.unicode_len() < 30 {
        return ModelChoice::flash(preset);
    }
    if has_text(msg, "建议") || has_text(msg, "分析") || has_text(msg, "为什么") || has_text(
        msg,
        "怎么办",
    ) || has_text(msg, "如何") || has_text(msg, "拒执") || has_text(msg, "风险") || has_text(
        msg,
        "怎么处理",
    ) || has_text(msg, "策略") || has_text(msg, "对比") || has_text(msg, "评估") || has_text(
        msg,
        "推理",
    ) {
        ModelChoice::pro(preset, false)
    } else {
        ModelChoice::flash(preset)
    }
}

/// What the user has set, or the fast model.
pub open spec fn mode_of(settings: Settings, preset: ProviderPreset) -> Seq<char> {
    match settings.cloud_llm_model {
        Some(m) => if is_blank(m@) {
            preset.flash_model@
        } else {
            trim(m@)
        },
        None => preset.flash_model@,
    }
}

/// The model for a task and a message.
pub open spec fn routed(
    task: TaskType,
    msg: Seq<char>,
    settings: Settings,
    preset: ProviderPreset,
) -> ChoiceModel {
    let mode = mode_of(settings, preset);
    if mode != "auto"@ {
        forced_of(mode, preset)
    } else {
        match task {
            TaskType::FreeChat => free_chat_of(msg, preset),
            _ => pro_of(preset, false),
        }
    }
}

/// The model for a task and a message, among the models of the provider that
/// the user has set.
pub fn route_model(
    task: TaskType,
    user_message: &str,
    settings: &Settings,
    preset: &ProviderPreset,
) -> (r: ModelChoice)
    ensures
        r@ == routed(task, user_message@, *settings, *preset),
{
    let mode = match &settings.cloud_llm_model {
        Some(m) => {
            let t = trim_text(m.as_str());
            if t.as_str().unicode_len() == 0 {
                preset.flash_model.clone()
            } else {
                t
            }
        },
        None => preset.flash_model.clone(),
    };
    if !same_text(mode.as_str(), "auto") {
        return ModelChoice::from_forced(mode.as_str(), preset);
    }
    match task {
        TaskType::FreeChat => route_free_chat(user_message, preset),
        _ => ModelChoice::pro(preset, false),
    }
}

/// The user has named no model.
pub open spec fn names_none(settings: Settings) -> bool {
    match settings.cloud_llm_model {
        Some(m) => is_blank(m@),
        None => true,
    }
}

/// The user has set `auto`.
pub open spec fn set_to_auto(settings: Settings) -> bool {
    match settings.cloud_llm_model {
        Some(m) => trim(m@) == "auto"@,
        None => false,
    }
}

/// Unless the user has set `auto`, no task and no message changes the model: it
/// is the one that the user named, or the fast one if none is named. A provider
/// whose fast model is itself called `auto` is left out where none is named.
pub proof fn no_task_is_moved_up(
    task1: TaskType,
    msg1: Seq<char>,
    task2: TaskType,
    msg2: Seq<char>,
    settings: Settings,
    preset: ProviderPreset,
)
    requires
        !set_to_auto(settings),
        names_none(settings) ==> preset.flash_model@ != "auto"@,
    ensures
        routed(task1, msg1, settings, preset) == routed(task2, msg2, settings, preset),
        routed(task1, msg1, settings, preset).model == (match settings.cloud_llm_model {
            Some(m) => if is_blank(m@) {
                preset.flash_model@
            } else {
                trim(m@)
            },
            None => preset.flash_model@,
        }),
{
}

/// Where the user has set `auto`, a task is given to the strong model. So is a
/// message of thirty characters or more that asks for reasoning; a shorter one, or
/// one that asks for none, goes to the fast model.
pub proof fn hard_questions_go_to_the_strong_model(
    task: TaskType,
    msg: Seq<char>,
    settings: Settings,
    preset: ProviderPreset,
)
    requires
        set_to_auto(settings),
    ensures
        ({
            let choice = routed(task, msg, settings, preset);
            let hard = contains(msg, "建议"@) || contains(msg, "分析"@) || contains(
                msg,
                "为什么"@,
            ) || contains(msg, "怎么办"@) || contains(msg, "如何"@) || contains(msg, "拒执"@)
                || contains(msg, "风险"@) || contains(msg, "怎么处理"@) || contains(msg, "策略"@)
                || contains(msg, "对比"@) || contains(msg, "评估"@) || contains(msg, "推理"@);
            &&& task != TaskType::FreeChat ==> choice.model == preset.pro_model@
            &&& task == TaskType::FreeChat && msg.len() < 30 ==> choice.model
                == preset.flash_model@
            &&& task == TaskType::FreeChat && msg.len() >= 30 && hard ==> choice.model
                == preset.pro_model@
            &&& task == TaskType::FreeChat && !hard ==> choice.model == preset.flash_model@
            &&& choice.max_tokens == preset.max_output_tokens
        }),
{
    if let Some(m) = settings.cloud_llm_model {
        reveal_strlit("auto");
        assert(trim(m@).len() > 0);
    }
}

/// The strong model is asked to stray less than the fast one, and so is a model that
/// is named after it. The one that thinks is taken only for reasoning, and only where
/// there is one.
pub proof fn strong_models_stray_less(preset: ProviderPreset, name: Seq<char>, reasoning: bool)
    ensures
        pro_of(preset, reasoning).temperature < flash_of(preset).temperature,
        forced_of(name, preset).model == name,
        contains(name, "pro"@) ==> forced_of(name, preset).temperature == pro_of(
            preset,
            reasoning,
        ).temperature,
        !contains(name, "pro"@) ==> forced_of(name, preset).temperature == flash_of(
            preset,
        ).temperature,
        flash_of(preset).temperature == 30,
        pro_of(preset, reasoning).temperature == 15,
        flash_of(preset).model == preset.flash_model@,
        pro_of(preset, false).model == preset.pro_model@,
        preset.thinking_model is None ==> pro_of(preset, true).model == preset.pro_model@,
        preset.thinking_model is Some ==> pro_of(preset, true).model
            == preset.thinking_model->0@,
        forall|c: ChoiceModel|
            c == flash_of(preset) || c == pro_of(preset, reasoning) || c == forced_of(name, preset)
                ==> (#[trigger] c.max_tokens) == preset.max_output_tokens,
{
}

} // verus!
