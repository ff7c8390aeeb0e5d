//! Volume adjustment. The gain itself is applied to floating-point samples outside this
//! library; what stands here is the command's parameter schema and the choice of where
//! the gain comes from.
use vstd::prelude::*;
use crate::error::{PanaudError, Result};
use crate::schema::{
    command, file_command_params, file_command_view, param, param_view, push_param, CommandSchema,
    CommandView, ParamRange, ParamType,
};

verus! {

/// The parameters of `volume`.
pub open spec fn volume_schema_view() -> CommandView {
    file_command_view(
        "volume"@,
        "Adjust audio volume by gain (dB) or linear factor"@,
        seq![
            param_view(
                "gain"@,
                ParamType::Float,
                false,
                "Gain in dB (e.g. -3 for quieter, +6 for louder)"@,
                None,
                Some(ParamRange { min: -100i64, max: 100 }),
            ),
            param_view(
                "factor"@,
                ParamType::Float,
                false,
                "Linear volume factor (e.g. 0.5 for half, 2.0 for double)"@,
                None,
                Some(ParamRange { min: 0, max: 100 }),
            ),
        ],
    )
}

/// Parameter schema of `volume`.
pub fn schema() -> (s: CommandSchema)
    ensures
        s@ == volume_schema_view(),
{
    let mut params = file_command_params();
    push_param(
        &mut params,
        param(
            "gain",
            ParamType::Float,
            false,
            "Gain in dB (e.g. -3 for quieter, +6 for louder)",
            None,
            Some(ParamRange { min: -100i64, max: 100 }),
        ),
    );
    push_param(
        &mut params,
        param(
            "factor",
            ParamType::Float,
            false,
            "Linear volume factor (e.g. 0.5 for half, 2.0 for double)",
            None,
            Some(ParamRange { min: 0, max: 100 }),
        ),
    );
    let s = command("volume", "Adjust audio volume by gain (dB) or linear factor", params);
    proof {
        assert(s@.params =~= volume_schema_view().params);
    }
    s
}


/// Where the gain of `volume` comes from.
#[derive(Debug, Clone, Copy, PartialEq, Eq, Structural)]
pub enum GainSource {
    /// `--gain`, in decibels.
    Decibels,
    /// `--factor`, a linear factor.
    Factor,
}

/// Which of `--gain` and `--factor` sets the gain: exactly one of them must be given.
pub fn gain_source(has_gain: bool, has_factor: bool) -> (r: Result<GainSource>)
    ensures
        has_gain && !has_factor ==> r == Ok::<GainSource, PanaudError>(GainSource::Decibels),
        !has_gain && has_factor ==> r == Ok::<GainSource, PanaudError>(GainSource::Factor),
        has_gain && has_factor ==> (r matches Err(PanaudError::InvalidArgument { message, suggestion })
            && message@ == "cannot specify both --gain and --factor"@ && suggestion@
            == "use either --gain <dB> or --factor <value>, not both"@),
        !has_gain && !has_factor ==> (r matches Err(PanaudError::InvalidArgument { message, suggestion })
            && message@ == "must specify --gain or --factor"@ && suggestion@
            == "use --gain <dB> (e.g. --gain -3) or --factor <value> (e.g. --factor 0.5)"@),
{
    if has_gain && has_factor {
        return Err(
            PanaudError::InvalidArgument {
                message: "cannot specify both --gain and --factor".to_owned(),
                suggestion: "use either --gain <dB> or --factor <value>, not both".to_owned(),
            },
        );
    }
    if has_gain {
        return Ok(GainSource::Decibels);
    }
    if has_factor {
        return Ok(GainSource::Factor);
    }
    Err(
        PanaudError::InvalidArgument {
            message: "must specify --gain or --factor".to_owned(),
            suggestion: "use --gain <dB> (e.g. --gain -3) or --factor <value> (e.g. --factor 0.5)".to_owned(),
        },
    )
}

} // verus!
