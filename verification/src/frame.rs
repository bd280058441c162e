//! The frames that a completion is reported in.

use crate::json::{Json, JsonModel};
use vstd::prelude::*;

verus! {

/// The tokens that one completion used.
#[derive(Debug, Clone, Copy, PartialEq, Eq)]
pub struct LlmTokenUsage {
    pub prompt_tokens: u64,
    pub completion_tokens: u64,
    pub total_tokens: u64,
    pub cache_read_input_tokens: Option<u64>,
    pub cache_creation_input_tokens: Option<u64>,
    pub reasoning_tokens: Option<u64>,
}

/// A function call that the model asks for.
#[derive(Debug, PartialEq)]
pub struct FunctionCall {
    pub function_name: String,
    pub tool_call_id: String,
    pub arguments: Json,
}

/// One measurement.
#[derive(Debug, PartialEq)]
pub enum MetricsData {
    /// The tokens that a completion of `model` used, reported by `processor`.
    LlmUsage { processor: String, model: Option<String>, tokens: LlmTokenUsage },
}

/// One step of a completion.
#[derive(Debug, PartialEq)]
pub enum Frame {
    /// The response begins.
    LlmResponseStart,
    /// A piece of the response's text.
    LlmText(String),
    /// The function calls that the response asks for.
    FunctionCallsStarted(Vec<FunctionCall>),
    /// Measurements.
    Metrics(Vec<MetricsData>),
    /// The response is over.
    LlmResponseEnd,
}

/// The model of a [`FunctionCall`].
pub struct FunctionCallModel {
    pub function_name: Seq<char>,
    pub tool_call_id: Seq<char>,
    pub arguments: JsonModel,
}

/// The model of a [`MetricsData`].
pub enum MetricsModel {
    LlmUsage { processor: Seq<char>, model: Option<Seq<char>>, tokens: LlmTokenUsage },
}

/// The model of a [`Frame`].
pub enum FrameModel {
    LlmResponseStart,
    LlmText(Seq<char>),
    FunctionCallsStarted(Seq<FunctionCallModel>),
    Metrics(Seq<MetricsModel>),
    LlmResponseEnd,
}

impl View for FunctionCall {
    type V = FunctionCallModel;

    open spec fn view(&self) -> FunctionCallModel {
        FunctionCallModel {
            function_name: self.function_name@,
            tool_call_id: self.tool_call_id@,
            arguments: self.arguments@,
        }
    }
}

impl View for MetricsData {
    type V = MetricsModel;

    open spec fn view(&self) -> MetricsModel {
        match *self {
            MetricsData::LlmUsage { processor, model, tokens } => MetricsModel::LlmUsage {
                processor: processor@,
                model: match model {
                    Some(m) => Some(m@),
                    None => None,
                },
                tokens,
            },
        }
    }
}

impl View for Frame {
    type V = FrameModel;

    open spec fn view(&self) -> FrameModel {
        match *self {
            Frame::LlmResponseStart => FrameModel::LlmResponseStart,
            Frame::LlmText(text) => FrameModel::LlmText(text@),
            Frame::FunctionCallsStarted(calls) => FrameModel::FunctionCallsStarted(
                calls@.map_values(|c: FunctionCall| c@),
            ),
            Frame::Metrics(items) => FrameModel::Metrics(items@.map_values(|m: MetricsData| m@)),
            Frame::LlmResponseEnd => FrameModel::LlmResponseEnd,
        }
    }
}

/// The models of a sequence of frames.
pub open spec fn frame_models(frames: Seq<Frame>) -> Seq<FrameModel> {
    frames.map_values(|f: Frame| f@)
}

/// The model of a frame holds all that the frame holds: its kind, its text, each call with its
/// name, id and arguments, and each measurement.
pub proof fn law_model_keeps_the_frame(frame: Frame)
    ensures
        match frame {
            Frame::LlmResponseStart => frame@ == FrameModel::LlmResponseStart,
            Frame::LlmText(text) => frame@ == FrameModel::LlmText(text@),
            Frame::FunctionCallsStarted(calls) => frame@ matches FrameModel::FunctionCallsStarted(
                models,
            ) && models.len() == calls@.len() && forall|i: int|
                0 <= i < calls@.len() ==> {
                    &&& (#[trigger] models[i]).function_name == calls@[i].function_name@
                    &&& models[i].tool_call_id == calls@[i].tool_call_id@
                    &&& models[i].arguments == calls@[i].arguments@
                },
            Frame::Metrics(items) => frame@ matches FrameModel::Metrics(models) && models.len()
                == items@.len() && forall|i: int|
                0 <= i < items@.len() ==> match items@[i] {
                    MetricsData::LlmUsage { processor, model, tokens } => (
                    #[trigger] models[i]) matches MetricsModel::LlmUsage {
                        processor: p,
                        model: m,
                        tokens: t,
                    } && p == processor@ && t == tokens && (match model {
                        Some(name) => m == Some(name@),
                        None => m is None,
                    }),
                },
            Frame::LlmResponseEnd => frame@ == FrameModel::LlmResponseEnd,
        },
{
}

/// Frames are modelled one by one, in their order.
pub proof fn law_model_keeps_the_frames(frames: Seq<Frame>)
    ensures
        frame_models(frames).len() == frames.len(),
        forall|i: int| 0 <= i < frames.len() ==> #[trigger] frame_models(frames)[i] == frames[i]@,
{
}

} // verus!
