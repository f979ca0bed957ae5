use unifand::daemon::{
    combine_outcomes, display_after, plan_display, stops_videos, DisplayPlan, LcdKind,
};
use unifand::ipc::{DisplayState, Request};
use unifand::protocol::lcd::{LcdMode, ScreenRotation};
use unifand::transport::lcd::LcdCmd;

fn refusal(p: Option<DisplayPlan>) -> String {
    match p {
        Some(DisplayPlan::Refuse(m)) => m,
        other => panic!("expected a refusal, got {:?}", other),
    }
}

#[test]
fn brightness_plans() {
    match plan_display(LcdKind::Wireless, &Request::DisplayBrightness { level: 70 }) {
        Some(DisplayPlan::WirelessCommand { cmd, param }) => {
            assert_eq!(cmd, LcdCmd::Brightness);
            assert_eq!(param, Some(70));
        }
        other => panic!("unexpected {:?}", other),
    }
    match plan_display(LcdKind::Wired, &Request::DisplayBrightness { level: 70 }) {
        Some(DisplayPlan::WiredSetting(s)) => {
            assert_eq!(s.mode, LcdMode::LcdSetting);
            assert_eq!(s.brightness, 70);
            assert_eq!(s.rotation, ScreenRotation::Deg0);
        }
        other => panic!("unexpected {:?}", other),
    }
    assert_eq!(
        refusal(plan_display(LcdKind::Absent, &Request::DisplayBrightness { level: 70 })),
        "no LCD connected"
    );
}

#[test]
fn rotation_plans() {
    assert_eq!(
        refusal(plan_display(LcdKind::Wireless, &Request::DisplayRotate { rotation: 4 })),
        "rotation must be 0-3"
    );
    assert_eq!(
        refusal(plan_display(LcdKind::Wired, &Request::DisplayRotate { rotation: 3 })),
        "invalid rotation: use 0, 90, 180, or 270"
    );
    match plan_display(LcdKind::Wired, &Request::DisplayRotate { rotation: 270 }) {
        Some(DisplayPlan::WiredSetting(s)) => assert_eq!(s.rotation, ScreenRotation::Deg270),
        other => panic!("unexpected {:?}", other),
    }
}

#[test]
fn video_and_reset_plans() {
    let video = |fps| Request::DisplayVideo { path: "v.mp4".into(), fps, loop_video: false };
    assert_eq!(refusal(plan_display(LcdKind::Wireless, &video(61))), "FPS too high (max 60)");
    assert!(matches!(
        plan_display(LcdKind::Wireless, &video(60)),
        Some(DisplayPlan::WirelessVideo { fps: 60 })
    ));
    assert_eq!(
        refusal(plan_display(LcdKind::Wired, &video(20))),
        "per-LCD video not yet supported for wired LCDs"
    );
    assert_eq!(
        refusal(plan_display(LcdKind::Wired, &Request::DisplayReset)),
        "reset not supported on wired LCDs"
    );
    assert!(plan_display(LcdKind::Wireless, &Request::Status).is_none());
    assert!(stops_videos(&Request::DisplayReset));
    assert!(stops_videos(&video(60)));
    assert!(!stops_videos(&video(61)));
    assert!(!stops_videos(&Request::DisplayBrightness { level: 1 }));
}

#[test]
fn display_state_follows_requests() {
    let idle = DisplayState::default();
    let d = display_after(
        &Request::DisplayVideo { path: "v.mp4".into(), fps: 24, loop_video: true },
        &idle,
    );
    assert_eq!(d.mode, "video");
    assert_eq!(d.source.as_deref(), Some("v.mp4"));
    assert_eq!(d.fps, Some(24));
    assert!(d.looping);
    let same = display_after(&Request::DisplayBrightness { level: 3 }, &d);
    assert_eq!(same.mode, "video");
    assert_eq!(same.fps, Some(24));
    let reset = display_after(&Request::DisplayReset, &d);
    assert_eq!(reset.mode, "idle");
    assert!(reset.source.is_none());
}

#[test]
fn display_outcome_is_the_last_failure() {
    assert_eq!(combine_outcomes::<&str>(vec![]), Ok(()));
    assert_eq!(combine_outcomes::<&str>(vec![Ok(()), Ok(())]), Ok(()));
    assert_eq!(combine_outcomes(vec![Err("first"), Ok(()), Err("second"), Ok(())]), Err("second"));
}
