//! What goes back and forth between the program and its worker.

use tiro::gpu::{
    alive, answer_timeout, await_ready, bytes_u32, frame, frame_length, join_segments, pcm_bytes,
    pcm_samples, read_answer, ready_frame, request, response_frame, stop_step, u32_bytes,
    worker_args, Frame, Process, StopStep, Wait, STOP_GRACE_NS,
};
use tiro::gpu_worker::{
    exit_code, load_plan, parse_args, ready_line, reply, serve, serve_begin, LoadPlan, Opts,
    Request, Serve, ServeStep,
};

fn args(all: &[&str]) -> Vec<String> {
    all.iter().map(|s| s.to_string()).collect()
}

#[test]
fn numbers_and_samples_read_back() {
    for n in [0, 1, 255, 256, 0x0102_0304, u32::MAX] {
        assert_eq!(bytes_u32(&u32_bytes(n)), n);
        assert_eq!(u32_bytes(n), n.to_le_bytes());
    }
    let samples: Vec<u32> = [0.0f32, -1.0, 0.25, f32::NAN].map(f32::to_bits).to_vec();
    assert_eq!(pcm_samples(&pcm_bytes(&samples)), samples);
    assert_eq!(pcm_samples(&[1, 0, 0, 0, 9]), [1], "what is left over");
    assert_eq!(frame(&vec![7, 8]), [2, 0, 0, 0, 7, 8]);
}

#[test]
fn the_worker_understands_what_it_is_started_with() {
    let argv = worker_args("base.en", "/models", "int8", "GPU");
    assert_eq!(
        parse_args(&argv),
        Opts {
            model: Some("base.en".into()),
            models_dir: Some("/models".into()),
            device: "gpu".into(),
            compute_type: "int8".into(),
        }
    );
    assert_eq!(
        parse_args(&args(&["--model"])),
        Opts {
            model: None,
            models_dir: None,
            device: "gpu".into(),
            compute_type: "int8".into(),
        },
        "an option without a value"
    );
}

#[test]
fn a_worker_that_cannot_load_says_why() {
    let opts = parse_args(&worker_args("m", "/d", "int8", "gpu"));
    assert_eq!(
        load_plan(&opts, false),
        Err("built without GPU support (rebuild with --features gpu)".to_string())
    );
    assert_eq!(
        load_plan(&opts, true),
        Ok(LoadPlan {
            model: "m".into(),
            models_dir: "/d".into(),
            compute_type: "int8".into(),
            use_gpu: true,
        })
    );
    assert_eq!(
        load_plan(&parse_args(&[]), true),
        Err("--model is required".to_string())
    );
    assert_eq!(
        load_plan(&parse_args(&args(&["--model", "m"])), true),
        Err("--models-dir is required".to_string())
    );
    let line = ready_line(&Err("no card".to_string()), "m", "gpu");
    let text = String::from_utf8(line).unwrap();
    assert!(text.ends_with('\n'));
    let ready = Wait::Got(ready_frame(Some(&text)));
    assert_eq!(await_ready(ready, 30), Err("no card".to_string()));
    assert_eq!(exit_code(true), 0);
    assert_eq!(exit_code(false), 1);
}

#[test]
fn a_ready_worker_is_ready() {
    let text = String::from_utf8(ready_line(&Ok(()), "m", "gpu")).unwrap();
    assert_eq!(await_ready(Wait::Got(ready_frame(Some(&text))), 30), Ok(()));
    assert_eq!(
        await_ready(Wait::Got(ready_frame(None)), 30),
        Err("worker exited before ready".to_string())
    );
    assert!(await_ready(Wait::Got(ready_frame(Some("nonsense"))), 30)
        .unwrap_err()
        .starts_with("bad ready line: "));
    assert_eq!(
        await_ready(Wait::Got(ready_frame(Some("{}"))), 30),
        Err("unknown load failure".to_string())
    );
    assert_eq!(
        await_ready(Wait::Got(Frame::Response(Vec::new())), 30),
        Err("worker sent a frame before ready".to_string())
    );
    assert_eq!(
        await_ready(Wait::Timeout, 120),
        Err("worker not ready within 120s".to_string())
    );
    assert_eq!(
        await_ready(Wait::Disconnected, 30),
        Err("worker reader died".to_string())
    );
}

/// Hands the worker the bytes of one request, read by read.
fn serve_one(sent: &[u8]) -> (Vec<u32>, Request) {
    let (mut at, mut step) = serve_begin();
    let mut from = 0;
    loop {
        match step {
            ServeStep::Read(n) => {
                let to = from + n as usize;
                let (next, then) = serve(at, Some(sent[from..to].to_vec()));
                at = next;
                step = then;
                from = to;
            }
            ServeStep::Transcribe(samples, request) => {
                assert_eq!(at, Serve::Length, "ready for the next one");
                assert_eq!(from, sent.len(), "nothing is left over");
                return (samples, request);
            }
            ServeStep::Leave => panic!("the worker left"),
        }
    }
}

#[test]
fn requests_are_served_as_they_were_written() {
    let samples = vec![1, 2, 3, u32::MAX];
    let (got, r) = serve_one(&request(&samples, 5, Some("Tiro \"é\"")));
    assert_eq!(got, samples);
    assert_eq!(r.samples, 4);
    assert_eq!(r.beam, 5);
    assert_eq!(r.vocab.as_deref(), Some("Tiro \"é\""));
    let (got, r) = serve_one(&request(&[], 1, Some("")));
    assert!(got.is_empty());
    assert_eq!((r.beam, r.vocab), (1, None));
    let header = br#"{"samples":1}"#.to_vec();
    let mut sent = frame(&header);
    sent.extend([9, 0, 0, 0]);
    let (got, r) = serve_one(&sent);
    assert_eq!((got, r.beam), (vec![9], 5), "a header that says little");
}

#[test]
fn the_worker_leaves_when_it_is_left() {
    assert_eq!(serve(Serve::Length, None), (Serve::Exit, ServeStep::Leave));
    assert_eq!(
        serve(Serve::Header, Some(b"nonsense".to_vec())),
        (Serve::Exit, ServeStep::Leave)
    );
    assert_eq!(
        serve(Serve::Header, Some(br#"{"samples":18446744073709551615}"#.to_vec())),
        (Serve::Exit, ServeStep::Leave)
    );
}

fn answer(framed: Vec<u8>) -> Result<String, String> {
    let n = frame_length(Ok([framed[0], framed[1], framed[2], framed[3]])).unwrap();
    assert_eq!(n as usize, framed.len() - 4);
    read_answer(Wait::Got(response_frame(Ok(framed[4..].to_vec()))), 1)
}

#[test]
fn answers_are_read_as_they_were_written() {
    assert_eq!(answer(reply(&Ok(" héllo ".to_string()))), Ok("héllo".to_string()));
    assert_eq!(answer(reply(&Ok(String::new()))), Ok(String::new()));
    assert_eq!(
        answer(reply(&Err("out of memory".to_string()))),
        Err("out of memory".to_string())
    );
    assert_eq!(answer(frame(&b"{}".to_vec())), Err("worker error".to_string()));
    assert!(answer(frame(&b"{".to_vec()))
        .unwrap_err()
        .starts_with("bad worker frame: "));
    assert_eq!(
        frame_length(Err("eof".to_string())),
        Err("worker stdout closed: eof".to_string())
    );
    assert_eq!(
        response_frame(Err("eof".to_string())),
        Frame::Dead("worker stdout closed mid-frame: eof".to_string())
    );
}

#[test]
fn waits_that_end_badly_say_how() {
    assert_eq!(
        read_answer(Wait::Timeout, 30_500_000_000),
        Err("worker timed out after 30s".to_string())
    );
    assert_eq!(
        read_answer(Wait::Timeout, 31_500_000_000),
        Err("worker timed out after 32s".to_string())
    );
    assert_eq!(
        read_answer(Wait::Disconnected, 1),
        Err("worker reader died".to_string())
    );
    assert_eq!(
        read_answer(Wait::Got(Frame::Ready(Vec::new())), 1),
        Err("unexpected ready frame".to_string())
    );
    assert_eq!(
        read_answer(Wait::Got(Frame::Dead("gone".to_string())), 1),
        Err("gone".to_string())
    );
    assert_eq!(answer_timeout(16_000), Some(32_000_000_000));
    assert_eq!(answer_timeout(u64::MAX), None);
}

#[test]
fn segments_are_trimmed_and_joined() {
    let all = args(&[" one ", "", "  ", "two"]);
    assert_eq!(join_segments(&all), "one two");
}

#[test]
fn a_worker_is_given_time_to_leave() {
    assert_eq!(stop_step(false, 0, Process::Running), StopStep::Look);
    assert_eq!(stop_step(false, 0, Process::Exited), StopStep::Gone);
    assert_eq!(stop_step(false, 0, Process::Unknown), StopStep::Kill);
    assert_eq!(stop_step(false, STOP_GRACE_NS, Process::Running), StopStep::Kill);
    assert_eq!(stop_step(true, 0, Process::Running), StopStep::Kill);
    assert!(alive(Process::Running));
    assert!(!alive(Process::Unknown));
}

#[test]
fn frames_read_back_whatever_follows_them() {
    let payload = br#"{"text":"hi","n":1}"#.to_vec();
    let whole = frame(&payload);
    let mut stream = whole.clone();
    stream.extend(frame(&b"{}".to_vec()));
    let length = bytes_u32(&stream[..4]) as usize;
    assert_eq!(stream[4..4 + length], payload);
    assert_eq!(stream[4 + length..], frame(&b"{}".to_vec()));
    for cut in 0..whole.len() {
        let part = &whole[..cut];
        assert!(cut < 4 || part.len() - 4 < bytes_u32(&part[..4]) as usize);
    }
}
