use ommatidia_tools::capi::{
    check_arguments, inspect_model, ommatidia_api_version, ommatidia_model_inspect,
    ommatidia_status_string, write_error, Backbone, LoadError, ModelFacts, ModelInfo, Outcome,
    Status, MODEL_INFO_SIZE,
};
use ommatidia_tools::dataset::{Plane, PlaneSet};
use ommatidia_tools::model::Objective;

fn facts() -> ModelFacts {
    ModelFacts {
        valid: Ok(()),
        built: Ok(vec![600_000, 49_000, 200]),
        scale: 2,
        tile: 32,
        levels: 3,
        cond_planes: PlaneSet::new().with(Plane::Color).with(Plane::Depth),
        cond_channels: 4,
        target_channels: 12,
        objective: Objective::Direct,
        backbone: Backbone::Conv,
    }
}

#[test]
fn api_version_is_major_one() {
    assert_eq!(ommatidia_api_version() >> 16, 1);
    assert_eq!(ommatidia_status_string(0), "ok");
}

#[test]
fn too_small_output_is_rejected_without_writing_it() {
    let mut info = ModelInfo {
        struct_size: 4,
        ..ModelInfo::default()
    };
    let outcome = Outcome::Inspected(inspect_model(Ok(facts())));
    let reply = ommatidia_model_inspect(true, Some(info.struct_size), outcome);
    if let Some(report) = reply.info {
        info = report;
    }
    assert_eq!(reply.status, Status::IncompatibleStruct);
    assert_eq!(info.struct_size, 4);
    assert_eq!(
        reply.message,
        "OmmatidiumModelInfo is smaller than ABI 1.0 requires"
    );
}

#[test]
fn inspection_reports_the_graph_contract() {
    let mut info = ModelInfo::default();
    let outcome = Outcome::Inspected(inspect_model(Ok(facts())));
    let reply = ommatidia_model_inspect(true, Some(info.struct_size), outcome);
    assert_eq!(reply.status, Status::Success, "{:?}", reply.message);
    if let Some(report) = reply.info {
        info = report;
    }
    assert_eq!(write_error(reply.message.as_bytes(), 256), b"\0");
    assert_eq!(info.scale, 2);
    assert_eq!(info.input_plane_mask, facts().cond_planes.bits);
    assert_eq!(info.backbone, 1);
    assert_eq!(info.parameter_count, 649_200);
}

#[test]
fn missing_arguments_are_refused_before_the_size() {
    for (stem, size) in [(false, Some(4)), (false, None), (true, None)] {
        let outcome = Outcome::Inspected(inspect_model(Ok(facts())));
        let reply = ommatidia_model_inspect(stem, size, outcome);
        assert_eq!(reply.status, Status::InvalidArgument);
        assert!(reply.info.is_none());
        assert_eq!(reply.message, "checkpoint_stem and out_info are required");
    }
}

#[test]
fn arguments_are_needed() {
    assert_eq!(
        check_arguments(false, Some(MODEL_INFO_SIZE)),
        Some((
            Status::InvalidArgument,
            "checkpoint_stem and out_info are required"
        ))
    );
    assert_eq!(
        check_arguments(true, None).map(|(status, _)| status),
        Some(Status::InvalidArgument)
    );
    assert_eq!(check_arguments(true, Some(MODEL_INFO_SIZE)), None);
    assert_eq!(check_arguments(true, Some(MODEL_INFO_SIZE + 1)), None);
}

#[test]
fn every_status_has_words() {
    let expected = [
        (Status::Success, 0, "ok"),
        (Status::InvalidArgument, 1, "invalid argument"),
        (Status::IncompatibleStruct, 2, "incompatible structure size"),
        (Status::Io, 3, "I/O error"),
        (Status::MalformedConfig, 4, "malformed checkpoint config"),
        (Status::UnsupportedModel, 5, "unsupported model"),
        (Status::Internal, 6, "internal error"),
    ];
    for (status, code, words) in expected {
        assert_eq!(status.code(), code);
        assert_eq!(ommatidia_status_string(code), words);
    }
    assert_eq!(ommatidia_status_string(-1), "internal error");
    assert_eq!(ommatidia_status_string(99), "internal error");
}

#[test]
fn a_report_tells_the_settings() {
    let info = inspect_model(Ok(facts())).unwrap();
    assert_eq!(info.struct_size, 88);
    assert_eq!(info.scale, 2);
    assert_eq!(info.training_tile, 32);
    assert_eq!(info.extent_alignment, 4);
    assert_eq!(info.input_plane_mask, 0b11);
    assert_eq!(info.input_channel_count, 4);
    assert_eq!(info.output_channel_count, 12);
    assert_eq!(info.objective, 1);
    assert_eq!(info.backbone, 1);
    assert_eq!(info.attention_window, 0);
    assert_eq!(info.parameter_count, 649_200);
    let attending = ModelFacts {
        objective: Objective::Diffusion,
        backbone: Backbone::HybridWindowAttention {
            window: 8,
            head_dim: 16,
        },
        levels: 1,
        ..facts()
    };
    let info = inspect_model(Ok(attending)).unwrap();
    assert_eq!(info.extent_alignment, 1);
    assert_eq!(info.objective, 2);
    assert_eq!(info.backbone, 2);
    assert_eq!(info.attention_window, 8);
    assert_eq!(info.attention_head_dim, 16);
}

#[test]
fn what_fails_first_is_reported() {
    let status = |r: Result<ModelInfo, (Status, String)>| r.unwrap_err();
    assert_eq!(
        status(inspect_model(Err(LoadError::Io("gone".into())))),
        (Status::Io, "gone".into())
    );
    assert_eq!(
        status(inspect_model(Err(LoadError::Config("odd".into())))),
        (Status::MalformedConfig, "odd".into())
    );
    let invalid = ModelFacts {
        valid: Err("scale".into()),
        built: Err("graph".into()),
        levels: 0,
        ..facts()
    };
    assert_eq!(
        status(inspect_model(Ok(invalid))),
        (Status::UnsupportedModel, "scale".into())
    );
    let unbuilt = ModelFacts {
        built: Err("graph".into()),
        levels: 40,
        ..facts()
    };
    assert_eq!(
        status(inspect_model(Ok(unbuilt))),
        (Status::UnsupportedModel, "graph".into())
    );
}

#[test]
fn a_report_is_written_only_on_success() {
    let info = inspect_model(Ok(facts())).unwrap();
    let reply = ommatidia_model_inspect(true, Some(MODEL_INFO_SIZE), Outcome::Inspected(Ok(info)));
    assert_eq!(reply.status, Status::Success);
    assert_eq!(reply.info.unwrap().parameter_count, 649_200);
    assert_eq!(reply.message, "");
    let reply = ommatidia_model_inspect(true, Some(MODEL_INFO_SIZE), Outcome::Inspected(Err((Status::Io, "gone".into()))));
    assert_eq!(reply.status, Status::Io);
    assert!(reply.info.is_none());
    assert_eq!(reply.message, "gone");
    let reply = ommatidia_model_inspect(true, Some(MODEL_INFO_SIZE), Outcome::NotText);
    assert_eq!(reply.status, Status::InvalidArgument);
    assert_eq!(reply.message, "checkpoint path is not valid UTF-8");
    let reply = ommatidia_model_inspect(true, Some(MODEL_INFO_SIZE), Outcome::Panicked);
    assert_eq!(reply.status, Status::Internal);
    assert_eq!(reply.message, "internal panic while inspecting the model");
}

#[test]
fn messages_are_cut_to_their_buffer() {
    assert_eq!(write_error(b"hello", 0), b"");
    assert_eq!(write_error(b"hello", 1), b"\0");
    assert_eq!(write_error(b"hello", 4), b"hel\0");
    assert_eq!(write_error(b"hello", 5), b"hell\0");
    assert_eq!(write_error(b"hello", 6), b"hello\0");
    assert_eq!(write_error(b"hello", 64), b"hello\0");
}
