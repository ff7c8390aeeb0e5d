//! Peak normalization. The level itself is measured and applied to floating-point samples
//! outside this library; what stands here is the command's parameter schema.
use vstd::prelude::*;
use crate::schema::{
    command, file_command_params, file_command_view, param, param_view, push_param, CommandSchema,
    CommandView, ParamDefault, ParamRange, ParamType,
};

verus! {

/// The parameters of `normalize`.
pub open spec fn normalize_schema_view() -> CommandView {
    file_command_view(
        "normalize"@,
        "Peak-normalize audio to a target dBFS level"@,
        seq![
            param_view(
                "target"@,
                ParamType::Float,
                false,
                "Target peak level in dBFS (default: -1.0)"@,
                Some(ParamDefault::Number(-1i64)),
                Some(ParamRange { min: -100i64, max: 0 }),
            ),
        ],
    )
}

/// Parameter schema of `normalize`.
pub fn schema() -> (s: CommandSchema)
    ensures
        s@ == normalize_schema_view(),
{
    let mut params = file_command_params();
    push_param(
        &mut params,
        param(
            "target",
            ParamType::Float,
            false,
            "Target peak level in dBFS (default: -1.0)",
            Some(ParamDefault::Number(-1i64)),
            Some(ParamRange { min: -100i64, max: 0 }),
        ),
    );
    let s = command("normalize", "Peak-normalize audio to a target dBFS level", params);
    proof {
        assert(s@.params =~= normalize_schema_view().params);
    }
    s
}

} // verus!
